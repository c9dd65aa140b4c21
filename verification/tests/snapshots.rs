use fractal_tribute::board::Board;
use fractal_tribute::game_move::{DecodeError, GameMove, PixelChange};
use fractal_tribute::history::{latest_board, BoardError, MoveLink, _get_board_at_move};
use fractal_tribute::snapshot::{
    _get_board_from_link, copy_bytes, genesis, get_board_at_move, get_board_from_link,
    get_boards_from_links, get_boards_from_moves, get_latest_board, get_number_of_moves,
    with_provenance, MoveRef, TokenRequest,
};
use fractal_tribute::tile::Color;

fn touch(x: u8, y: u8, shade: u8) -> PixelChange {
    PixelChange { x, y, color: Color { r: shade, g: shade, b: shade }, graphic_option: 34 }
}

fn entry(id: u8, changes: Vec<PixelChange>) -> MoveLink {
    MoveLink { target: vec![id; 39], tag: GameMove { changes }.to_bytes().unwrap() }
}

fn log() -> Vec<MoveLink> {
    vec![
        entry(1, vec![touch(0, 0, 10)]),
        entry(2, vec![touch(0, 0, 20), touch(1, 1, 21)]),
        entry(3, vec![touch(2, 2, 30)]),
    ]
}

fn token(base: Vec<u8>, targets: Vec<Vec<u8>>) -> TokenRequest {
    TokenRequest { base, targets, creator: vec![0xcc; 39] }
}

fn address(fill: u8) -> Vec<u8> {
    let mut base = vec![132, 47, 36];
    base.extend_from_slice(&[fill; 32]);
    base.extend_from_slice(&[0; 4]);
    base
}

#[test]
fn genesis_is_thirty_six_zero_bytes() {
    assert_eq!(genesis(), vec![0u8; 36]);
    assert_eq!(copy_bytes(&vec![1, 2, 3]), vec![1, 2, 3]);
}

#[test]
fn number_of_moves_counts_the_log() {
    assert_eq!(get_number_of_moves(&vec![]), 0);
    assert_eq!(get_number_of_moves(&log()), 3);
}

#[test]
fn latest_board_names_the_last_move_and_its_author() {
    let snapshot = get_latest_board(&log(), &vec![0xaa; 39]).unwrap();
    assert_eq!(snapshot.bytes, latest_board(&log()).unwrap().to_bytes());
    assert_eq!(snapshot.creator, vec![0xaa; 39]);
    assert_eq!(snapshot.creation_hash, vec![3; 39]);
    assert_eq!(snapshot, get_board_at_move(&log(), &vec![3; 39], &vec![0xaa; 39]).unwrap());
}

#[test]
fn board_of_the_empty_log_comes_with_the_placeholder() {
    let empty = get_latest_board(&vec![], &vec![0xaa; 39]).unwrap();
    assert_eq!(empty.bytes, Board::new().to_bytes());
    assert_eq!(empty.creator, vec![0u8; 36]);
    assert_eq!(empty.creation_hash, vec![0u8; 36]);
}

#[test]
fn provenance_is_attached_as_given() {
    let board = latest_board(&log()).unwrap();
    let snapshot = with_provenance(&board, &vec![1, 2], &vec![3, 4, 5]);
    assert_eq!(snapshot.bytes, board.to_bytes());
    assert_eq!(snapshot.creator, vec![1, 2]);
    assert_eq!(snapshot.creation_hash, vec![3, 4, 5]);
}

#[test]
fn latest_board_fails_on_a_bad_tag() {
    let mut bad = log();
    bad[1].tag = vec![9];
    assert_eq!(
        get_latest_board(&bad, &vec![0xaa; 39]),
        Err(BoardError::Decode(DecodeError::Length))
    );
}

#[test]
fn board_at_move_names_its_move_and_author() {
    let snapshot = get_board_at_move(&log(), &vec![2; 39], &vec![0xaa; 39]).unwrap();
    assert_eq!(snapshot.bytes, _get_board_at_move(&log(), &vec![2; 39]).unwrap().to_bytes());
    assert_eq!(snapshot.creator, vec![0xaa; 39]);
    assert_eq!(snapshot.creation_hash, vec![2; 39]);
    assert_eq!(
        get_board_at_move(&log(), &vec![9; 39], &vec![0xaa; 39]),
        Err(BoardError::MoveNotFound)
    );
}

#[test]
fn boards_from_moves_come_in_order() {
    let moves = vec![
        MoveRef { hash: vec![3; 39], creator: vec![0xa3; 39] },
        MoveRef { hash: vec![1; 39], creator: vec![0xa1; 39] },
    ];
    let boards = get_boards_from_moves(&log(), &moves).unwrap();
    assert_eq!(boards.len(), 2);
    assert_eq!(boards[0], get_board_at_move(&log(), &vec![3; 39], &vec![0xa3; 39]).unwrap());
    assert_eq!(boards[1], get_board_at_move(&log(), &vec![1; 39], &vec![0xa1; 39]).unwrap());
    assert_eq!(get_boards_from_moves(&log(), &vec![]), Ok(vec![]));
}

#[test]
fn boards_from_moves_fail_on_the_first_unknown_move() {
    let moves = vec![
        MoveRef { hash: vec![1; 39], creator: vec![] },
        MoveRef { hash: vec![8; 39], creator: vec![] },
        MoveRef { hash: vec![2; 39], creator: vec![] },
    ];
    assert_eq!(get_boards_from_moves(&log(), &moves), Err(BoardError::MoveNotFound));
}

#[test]
fn board_from_link_follows_the_first_registration() {
    let request = token(address(7), vec![vec![2; 39], vec![3; 39]]);
    let found = get_board_from_link(&log(), &request).unwrap();
    assert_eq!(found.id, vec![7; 32]);
    assert_eq!(found.board, get_board_at_move(&log(), &vec![2; 39], &vec![0xcc; 39]).unwrap());
    assert_eq!(
        _get_board_from_link(&log(), &request),
        _get_board_at_move(&log(), &vec![2; 39])
    );
}

#[test]
fn board_from_link_without_registration_is_not_found() {
    assert_eq!(
        get_board_from_link(&log(), &token(address(7), vec![])),
        Err(BoardError::TokenNotFound)
    );
    assert_eq!(
        _get_board_from_link(&log(), &token(address(7), vec![])),
        Err(BoardError::TokenNotFound)
    );
    assert_eq!(
        get_board_from_link(&log(), &token(vec![1, 2, 3], vec![vec![2; 39]])),
        Err(BoardError::TokenNotFound)
    );
    assert_eq!(
        get_board_from_link(&log(), &token(address(7), vec![vec![9; 39]])),
        Err(BoardError::MoveNotFound)
    );
}

#[test]
fn boards_from_links_leave_out_what_fails() {
    let requests = vec![
        token(address(1), vec![vec![1; 39]]),
        token(address(2), vec![]),
        token(address(3), vec![vec![9; 39]]),
        token(address(4), vec![vec![3; 39]]),
    ];
    let boards = get_boards_from_links(&log(), &requests);
    assert_eq!(boards.len(), 2);
    assert_eq!(boards[0].id, vec![1; 32]);
    assert_eq!(boards[0].board.creation_hash, vec![1; 39]);
    assert_eq!(boards[1].id, vec![4; 32]);
    assert_eq!(boards[1].board.creation_hash, vec![3; 39]);
}
