use fractal_tribute::game_move::{create_game_move, DecodeError, GameMove, MoveError, PixelChange};
use fractal_tribute::tile::Color;

fn change(x: u8, y: u8, r: u8, g: u8, b: u8, graphic_option: u8) -> PixelChange {
    PixelChange { x, y, color: Color { r, g, b }, graphic_option }
}

fn move_of(n: usize) -> GameMove {
    let mut changes = Vec::new();
    for k in 0..n {
        changes.push(change((k % 50) as u8, ((k / 50) % 50) as u8, k as u8, 2, 3, (k % 35) as u8));
    }
    GameMove { changes }
}

#[test]
fn encode_writes_count_then_records() {
    let m = GameMove { changes: vec![change(1, 2, 10, 20, 30, 5), change(49, 0, 255, 0, 7, 34)] };
    assert_eq!(m.to_bytes(), Some(vec![2, 1, 2, 10, 20, 30, 5, 49, 0, 255, 0, 7, 34]));
}

#[test]
fn decode_reads_count_then_records() {
    let bytes = vec![2, 1, 2, 10, 20, 30, 5, 49, 0, 255, 0, 7, 34];
    let m = GameMove::from_bytes(&bytes).unwrap();
    assert_eq!(m.changes, vec![change(1, 2, 10, 20, 30, 5), change(49, 0, 255, 0, 7, 34)]);
    assert_eq!(m.count_changes(), 2);
}

#[test]
fn decode_of_encode_is_identity() {
    for n in [0usize, 1, 2, 19, 20, 21, 255] {
        let m = move_of(n);
        let bytes = m.to_bytes().unwrap();
        assert_eq!(bytes.len(), 1 + 6 * n);
        assert_eq!(GameMove::from_bytes(&bytes), Ok(m));
    }
}

#[test]
fn encode_of_decode_is_identity() {
    let bytes = vec![3, 0, 0, 1, 2, 3, 0, 49, 49, 4, 5, 6, 16, 7, 8, 9, 10, 11, 200];
    let m = GameMove::from_bytes(&bytes).unwrap();
    assert_eq!(m.to_bytes(), Some(bytes));
}

#[test]
fn decode_errors_have_words() {
    assert_eq!(
        DecodeError::Length.message(),
        "The length of a move does not fit its count of changes"
    );
    assert_eq!(DecodeError::Coordinate.message(), "A change of a move lies outside the board");
}

#[test]
fn decode_rejects_empty_input() {
    assert_eq!(GameMove::from_bytes(&[]), Err(DecodeError::Length));
}

#[test]
fn decode_rejects_length_that_does_not_fit_the_count() {
    assert_eq!(GameMove::from_bytes(&[1]), Err(DecodeError::Length));
    assert_eq!(GameMove::from_bytes(&[1, 0, 0, 0, 0, 0]), Err(DecodeError::Length));
    assert_eq!(GameMove::from_bytes(&[1, 0, 0, 0, 0, 0, 0, 0]), Err(DecodeError::Length));
    assert_eq!(GameMove::from_bytes(&[0, 0]), Err(DecodeError::Length));
    assert_eq!(GameMove::from_bytes(&[2, 0, 0, 0, 0, 0, 0]), Err(DecodeError::Length));
}

#[test]
fn decode_rejects_coordinate_off_the_board() {
    assert_eq!(GameMove::from_bytes(&[1, 50, 0, 0, 0, 0, 0]), Err(DecodeError::Coordinate));
    assert_eq!(GameMove::from_bytes(&[1, 0, 50, 0, 0, 0, 0]), Err(DecodeError::Coordinate));
    assert_eq!(GameMove::from_bytes(&[1, 255, 255, 0, 0, 0, 0]), Err(DecodeError::Coordinate));
    assert!(GameMove::from_bytes(&[1, 49, 49, 0, 0, 0, 0]).is_ok());
}

#[test]
fn one_bad_record_fails_the_whole_move() {
    let bytes = vec![2, 1, 1, 9, 9, 9, 0, 60, 1, 9, 9, 9, 0];
    assert_eq!(GameMove::from_bytes(&bytes), Err(DecodeError::Coordinate));
}

#[test]
fn decode_accepts_the_empty_move_and_any_pattern() {
    assert_eq!(GameMove::from_bytes(&[0]), Ok(GameMove { changes: vec![] }));
    assert_eq!(
        GameMove::from_bytes(&[1, 3, 4, 0, 0, 0, 255]),
        Ok(GameMove { changes: vec![change(3, 4, 0, 0, 0, 255)] })
    );
}

#[test]
fn encode_refuses_what_cannot_be_written() {
    assert_eq!(GameMove { changes: vec![change(50, 0, 0, 0, 0, 0)] }.to_bytes(), None);
    assert_eq!(GameMove { changes: vec![change(0, 50, 0, 0, 0, 0)] }.to_bytes(), None);
    assert_eq!(move_of(256).to_bytes(), None);
}

#[test]
fn creation_rejects_a_move_without_changes() {
    assert_eq!(create_game_move(&[0], 10, 100), Err(MoveError::NoChanges));
}

#[test]
fn creation_rejects_twenty_one_changes() {
    let bytes = move_of(21).to_bytes().unwrap();
    assert_eq!(create_game_move(&bytes, 10, 100), Err(MoveError::TooManyChanges));
}

#[test]
fn creation_accepts_twenty_changes() {
    let m = move_of(20);
    let bytes = m.to_bytes().unwrap();
    assert_eq!(create_game_move(&bytes, 10, 100), Ok(m));
}

#[test]
fn creation_accepts_one_change() {
    let m = move_of(1);
    let bytes = m.to_bytes().unwrap();
    assert_eq!(create_game_move(&bytes, 10, 100), Ok(m));
}

#[test]
fn creation_rejects_a_move_after_the_deadline() {
    let bytes = move_of(1).to_bytes().unwrap();
    assert_eq!(create_game_move(&bytes, 101, 100), Err(MoveError::GameEnded));
    assert!(create_game_move(&bytes, 100, 100).is_ok());
    assert_eq!(create_game_move(&[], 101, 100), Err(MoveError::GameEnded));
}

#[test]
fn creation_reports_bytes_that_do_not_decode() {
    assert_eq!(create_game_move(&[], 1, 100), Err(MoveError::Decode(DecodeError::Length)));
    assert_eq!(
        create_game_move(&[1, 50, 0, 0, 0, 0, 0], 1, 100),
        Err(MoveError::Decode(DecodeError::Coordinate))
    );
}
