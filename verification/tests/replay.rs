use fractal_tribute::board::{Board, BoardInput, BoardShapeError};
use fractal_tribute::game_move::{DecodeError, GameMove, PixelChange};
use fractal_tribute::history::{
    _get_board_at_move, get_all_game_moves_from_link_tags, latest_board, position_of_move,
    BoardError, MoveLink,
};
use fractal_tribute::tile::{Color, Tile};

fn edit(x: u8, y: u8, r: u8, g: u8, b: u8, graphic_option: u8) -> PixelChange {
    PixelChange { x, y, color: Color { r, g, b }, graphic_option }
}

fn painted_tile(r: u8, g: u8, b: u8, graphic_option: u8) -> Tile {
    Tile { color: Some(Color { r, g, b }), graphic_option: Some(graphic_option) }
}

fn blank_tile() -> Tile {
    Tile { color: None, graphic_option: None }
}

fn link(id: u8, changes: Vec<PixelChange>) -> MoveLink {
    MoveLink { target: vec![id; 39], tag: GameMove { changes }.to_bytes().unwrap() }
}

fn sample_log() -> Vec<MoveLink> {
    vec![
        link(1, vec![edit(0, 0, 1, 1, 1, 0), edit(1, 0, 2, 2, 2, 1)]),
        link(2, vec![edit(0, 0, 3, 3, 3, 17)]),
        link(3, vec![edit(2, 2, 4, 4, 4, 34), edit(1, 0, 5, 5, 5, 40)]),
    ]
}

#[test]
fn new_board_is_blank() {
    let board = Board::new();
    for x in 0..50 {
        for y in 0..50 {
            assert_eq!(board.get(x, y), Some(blank_tile()));
        }
    }
    assert_eq!(board.get(50, 0), None);
    assert_eq!(board.get(0, 50), None);
}

#[test]
fn replay_of_nothing_is_the_blank_board() {
    assert_eq!(Board::reconstruct_from_game_moves(&vec![]), Board::new());
}

#[test]
fn replay_applies_every_edit() {
    let moves = vec![
        GameMove { changes: vec![edit(0, 0, 1, 2, 3, 4), edit(49, 49, 5, 6, 7, 8)] },
        GameMove { changes: vec![edit(10, 20, 9, 9, 9, 34)] },
    ];
    let board = Board::reconstruct_from_game_moves(&moves);
    assert_eq!(board.get(0, 0), Some(painted_tile(1, 2, 3, 4)));
    assert_eq!(board.get(49, 49), Some(painted_tile(5, 6, 7, 8)));
    assert_eq!(board.get(10, 20), Some(painted_tile(9, 9, 9, 34)));
    assert_eq!(board.get(20, 10), Some(blank_tile()));
}

#[test]
fn last_writer_wins_within_a_move() {
    let moves = vec![GameMove { changes: vec![edit(3, 4, 1, 1, 1, 1), edit(3, 4, 2, 2, 2, 2)] }];
    let board = Board::reconstruct_from_game_moves(&moves);
    assert_eq!(board.get(3, 4), Some(painted_tile(2, 2, 2, 2)));
}

#[test]
fn last_writer_wins_across_moves() {
    let moves = vec![
        GameMove { changes: vec![edit(3, 4, 1, 1, 1, 1)] },
        GameMove { changes: vec![edit(5, 5, 7, 7, 7, 7)] },
        GameMove { changes: vec![edit(3, 4, 9, 8, 7, 6)] },
    ];
    let board = Board::reconstruct_from_game_moves(&moves);
    assert_eq!(board.get(3, 4), Some(painted_tile(9, 8, 7, 6)));
    assert_eq!(board.get(5, 5), Some(painted_tile(7, 7, 7, 7)));
}

#[test]
fn replay_twice_gives_the_same_board() {
    let moves = get_all_game_moves_from_link_tags(&sample_log()).unwrap();
    let first = Board::reconstruct_from_game_moves(&moves);
    let second = Board::reconstruct_from_game_moves(&moves);
    assert!(first.same_as(&second));
    assert_eq!(first, second);
    assert_eq!(first.to_bytes(), second.to_bytes());
}

#[test]
fn an_edit_off_the_board_touches_no_tile() {
    let moves = vec![GameMove { changes: vec![edit(50, 0, 1, 1, 1, 1), edit(0, 200, 1, 1, 1, 1)] }];
    assert_eq!(Board::reconstruct_from_game_moves(&moves), Board::new());
}

#[test]
fn apply_change_overwrites_one_tile() {
    let mut board = Board::new();
    board.apply_change(edit(7, 8, 1, 2, 3, 4));
    assert_eq!(board.get(7, 8), Some(painted_tile(1, 2, 3, 4)));
    assert_eq!(board.get(8, 7), Some(blank_tile()));
    board.apply_move(&GameMove { changes: vec![edit(7, 8, 5, 5, 5, 5), edit(8, 7, 6, 6, 6, 6)] });
    assert_eq!(board.get(7, 8), Some(painted_tile(5, 5, 5, 5)));
    assert_eq!(board.get(8, 7), Some(painted_tile(6, 6, 6, 6)));
}

#[test]
fn same_as_tells_boards_apart() {
    let mut a = Board::new();
    let b = Board::new();
    assert!(a.same_as(&b));
    a.apply_change(edit(49, 49, 0, 0, 0, 0));
    assert!(!a.same_as(&b));
}

#[test]
fn log_decodes_in_order() {
    let moves = get_all_game_moves_from_link_tags(&sample_log()).unwrap();
    assert_eq!(moves.len(), 3);
    assert_eq!(moves[1], GameMove { changes: vec![edit(0, 0, 3, 3, 3, 17)] });
}

#[test]
fn log_with_a_bad_tag_does_not_decode() {
    let mut log = sample_log();
    log.push(MoveLink { target: vec![4; 39], tag: vec![1, 50, 0, 0, 0, 0, 0] });
    log.push(MoveLink { target: vec![5; 39], tag: vec![] });
    assert_eq!(get_all_game_moves_from_link_tags(&log), Err(DecodeError::Coordinate));
    assert_eq!(latest_board(&log), Err(BoardError::Decode(DecodeError::Coordinate)));
}

#[test]
fn latest_board_replays_the_whole_log() {
    let board = latest_board(&sample_log()).unwrap();
    assert_eq!(board.get(0, 0), Some(painted_tile(3, 3, 3, 17)));
    assert_eq!(board.get(1, 0), Some(painted_tile(5, 5, 5, 40)));
    assert_eq!(board.get(2, 2), Some(painted_tile(4, 4, 4, 34)));
}

#[test]
fn board_at_move_is_the_replay_of_the_prefix() {
    let log = sample_log();
    for k in 0..log.len() {
        let at = _get_board_at_move(&log, &log[k].target).unwrap();
        let prefix: Vec<MoveLink> = log[..=k].to_vec();
        assert_eq!(at, latest_board(&prefix).unwrap());
    }
    let first = _get_board_at_move(&log, &vec![1; 39]).unwrap();
    assert_eq!(first.get(0, 0), Some(painted_tile(1, 1, 1, 0)));
    assert_eq!(first.get(1, 0), Some(painted_tile(2, 2, 2, 1)));
    assert_eq!(first.get(2, 2), Some(blank_tile()));
}

#[test]
fn board_at_unknown_move_is_not_found() {
    assert_eq!(_get_board_at_move(&sample_log(), &vec![9; 39]), Err(BoardError::MoveNotFound));
    assert_eq!(_get_board_at_move(&vec![], &vec![1; 39]), Err(BoardError::MoveNotFound));
    assert_eq!(position_of_move(&sample_log(), &vec![9; 39]), None);
    assert_eq!(position_of_move(&sample_log(), &vec![2; 39]), Some(1));
}

#[test]
fn board_at_move_ignores_what_comes_after() {
    let mut log = sample_log();
    log.push(MoveLink { target: vec![4; 39], tag: vec![7] });
    assert!(_get_board_at_move(&log, &vec![3; 39]).is_ok());
    assert_eq!(
        _get_board_at_move(&log, &vec![4; 39]),
        Err(BoardError::Decode(DecodeError::Length))
    );
}

#[test]
fn board_at_move_stops_at_the_first_entry_with_the_identifier() {
    let mut log = sample_log();
    log.push(link(1, vec![edit(9, 9, 9, 9, 9, 9)]));
    let at = _get_board_at_move(&log, &vec![1; 39]).unwrap();
    assert_eq!(at.get(9, 9), Some(blank_tile()));
    assert_eq!(at.get(0, 0), Some(painted_tile(1, 1, 1, 0)));
}

#[test]
fn board_input_must_be_square() {
    let column = vec![blank_tile(); 50];
    let good = BoardInput { tiles: vec![column.clone(); 50] };
    assert_eq!(Board::from_board_input(&good), Ok(Board::new()));
    let short = BoardInput { tiles: vec![column.clone(); 49] };
    assert_eq!(Board::from_board_input(&short), Err(BoardShapeError));
    let mut ragged = vec![column.clone(); 50];
    ragged[17] = vec![blank_tile(); 51];
    assert_eq!(Board::from_board_input(&BoardInput { tiles: ragged }), Err(BoardShapeError));
    assert_eq!(Board::from_board_input(&BoardInput { tiles: vec![] }), Err(BoardShapeError));
}

#[test]
fn board_input_keeps_every_tile() {
    let mut tiles = vec![vec![blank_tile(); 50]; 50];
    tiles[3][4] = painted_tile(1, 2, 3, 4);
    tiles[49][0] = Tile { color: Some(Color { r: 9, g: 9, b: 9 }), graphic_option: None };
    let board = Board::from_board_input(&BoardInput { tiles }).unwrap();
    assert_eq!(board.get(3, 4), Some(painted_tile(1, 2, 3, 4)));
    assert_eq!(
        board.get(49, 0),
        Some(Tile { color: Some(Color { r: 9, g: 9, b: 9 }), graphic_option: None })
    );
    assert_eq!(board.get(4, 3), Some(blank_tile()));
}

#[test]
fn board_bytes_hold_six_bytes_for_each_tile() {
    let mut board = Board::new();
    board.apply_change(edit(0, 1, 10, 20, 30, 5));
    let bytes = board.to_bytes();
    assert_eq!(bytes.len(), 6 * 50 * 50);
    assert_eq!(&bytes[0..6], &[0, 0, 0, 0, 0, 0]);
    assert_eq!(&bytes[6..12], &[1, 10, 20, 30, 1, 5]);
    let mut tiles = vec![vec![blank_tile(); 50]; 50];
    tiles[1][0] = Tile { color: None, graphic_option: Some(0) };
    let other = Board::from_board_input(&BoardInput { tiles }).unwrap().to_bytes();
    assert_eq!(&other[300..306], &[0, 0, 0, 0, 1, 0]);
}
