use vstd::prelude::*;
use crate::board::{grid_bytes, Board};
use crate::history::{
    _get_board_at_move, grid_at_move, latest_board, latest_grid, lemma_prefix_consistency,
    BoardError, MoveLink,
};
use crate::link_base::{token_id_of, zeros};
use crate::tile::Tile;

verus! {

/// Bytes in the placeholder that stands for "no move" and "no author".
pub const GENESIS_BYTES: usize = 36;

/// A board with where it comes from: its serialised content, the author of
/// the move that produced it and that move's identifier.
#[derive(Clone, Debug, PartialEq, Eq, Hash)]
pub struct BoardWithMetadata {
    pub bytes: Vec<u8>,
    pub creator: Vec<u8>,
    pub creation_hash: Vec<u8>,
}

/// A board with where it comes from, and the identifier of the token that
/// it is the content of.
#[derive(Clone, Debug, PartialEq, Eq, Hash)]
pub struct BoardWithMetadataAndId {
    pub board: BoardWithMetadata,
    pub id: Vec<u8>,
}

/// A move of the log and its author.
#[derive(Clone, Debug, PartialEq, Eq, Hash)]
pub struct MoveRef {
    pub hash: Vec<u8>,
    pub creator: Vec<u8>,
}

/// What was read for a token: its address, the moves registered under the
/// address, oldest first, and the author of the first of them.
#[derive(Clone, Debug, PartialEq, Eq, Hash)]
pub struct TokenRequest {
    pub base: Vec<u8>,
    pub targets: Vec<Vec<u8>>,
    pub creator: Vec<u8>,
}

/// The contents of a `BoardWithMetadata`.
pub struct Snapshot {
    pub bytes: Seq<u8>,
    pub creator: Seq<u8>,
    pub creation_hash: Seq<u8>,
}

impl View for BoardWithMetadata {
    type V = Snapshot;

    open spec fn view(&self) -> Snapshot {
        Snapshot { bytes: self.bytes@, creator: self.creator@, creation_hash: self.creation_hash@ }
    }
}

impl View for BoardWithMetadataAndId {
    type V = (Snapshot, Seq<u8>);

    open spec fn view(&self) -> (Snapshot, Seq<u8>) {
        (self.board@, self.id@)
    }
}

/// The current board with its provenance: the last move of the log
/// produced it, and `creator` is that move's author. For the empty log no
/// move and no author stand for the board, only the placeholder.
pub open spec fn latest_snapshot(links: Seq<MoveLink>, creator: Seq<u8>) -> Result<
    Snapshot,
    BoardError,
> {
    match latest_grid(links) {
        Ok(grid) => Ok(
            if links.len() == 0 {
                Snapshot {
                    bytes: grid_bytes(grid),
                    creator: zeros(GENESIS_BYTES as nat),
                    creation_hash: zeros(GENESIS_BYTES as nat),
                }
            } else {
                Snapshot { bytes: grid_bytes(grid), creator, creation_hash: links.last().target@ }
            },
        ),
        Err(e) => Err(e),
    }
}

/// The board as of a move, with its provenance.
pub open spec fn snapshot_at_move(links: Seq<MoveLink>, hash: Seq<u8>, creator: Seq<u8>) -> Result<
    Snapshot,
    BoardError,
> {
    match grid_at_move(links, hash) {
        Ok(grid) => Ok(Snapshot { bytes: grid_bytes(grid), creator, creation_hash: hash }),
        Err(e) => Err(e),
    }
}

/// The boards as of each of the moves, all or none: the error is that of
/// the first move that has no board.
pub open spec fn snapshots_at_moves(links: Seq<MoveLink>, moves: Seq<MoveRef>) -> Result<
    Seq<Snapshot>,
    BoardError,
>
    decreases moves.len(),
{
    if moves.len() == 0 {
        Ok(Seq::empty())
    } else {
        match snapshots_at_moves(links, moves.drop_last()) {
            Err(e) => Err(e),
            Ok(boards) => match snapshot_at_move(
                links,
                moves.last().hash@,
                moves.last().creator@,
            ) {
                Err(e) => Err(e),
                Ok(board) => Ok(boards.push(board)),
            },
        }
    }
}

/// The move that a token stands for: the first that is registered under
/// its address.
pub open spec fn token_move(base: Seq<u8>, targets: Seq<Seq<u8>>) -> Option<Seq<u8>> {
    if base.len() == 39 && targets.len() > 0 {
        Some(targets[0])
    } else {
        None
    }
}

/// The grid for a token.
pub open spec fn token_grid(links: Seq<MoveLink>, base: Seq<u8>, targets: Seq<Seq<u8>>) -> Result<
    Seq<Seq<Tile>>,
    BoardError,
> {
    match token_move(base, targets) {
        None => Err(BoardError::TokenNotFound),
        Some(hash) => grid_at_move(links, hash),
    }
}

/// The targets of a request as byte strings.
pub open spec fn target_views(targets: Seq<Vec<u8>>) -> Seq<Seq<u8>> {
    Seq::new(targets.len(), |i: int| targets[i]@)
}

/// The board for a token, with its provenance and the token's identifier.
pub open spec fn token_snapshot(links: Seq<MoveLink>, request: TokenRequest) -> Result<
    (Snapshot, Seq<u8>),
    BoardError,
> {
    match token_move(request.base@, target_views(request.targets@)) {
        None => Err(BoardError::TokenNotFound),
        Some(hash) => match snapshot_at_move(links, hash, request.creator@) {
            Ok(board) => Ok((board, request.base@.subrange(3, 35))),
            Err(e) => Err(e),
        },
    }
}

/// The boards of those of the tokens that have one, in the order of the
/// requests.
pub open spec fn token_snapshots(links: Seq<MoveLink>, requests: Seq<TokenRequest>) -> Seq<
    (Snapshot, Seq<u8>),
>
    decreases requests.len(),
{
    if requests.len() == 0 {
        Seq::empty()
    } else {
        match token_snapshot(links, requests.last()) {
            Ok(board) => token_snapshots(links, requests.drop_last()).push(board),
            Err(_) => token_snapshots(links, requests.drop_last()),
        }
    }
}

/// The views of boards.
pub open spec fn snapshot_views(boards: Seq<BoardWithMetadata>) -> Seq<Snapshot> {
    Seq::new(boards.len(), |i: int| boards[i]@)
}

/// The views of boards with identifiers.
pub open spec fn token_views(boards: Seq<BoardWithMetadataAndId>) -> Seq<(Snapshot, Seq<u8>)> {
    Seq::new(boards.len(), |i: int| boards[i]@)
}

/// Copies bytes.
pub fn copy_bytes(bytes: &Vec<u8>) -> (copy: Vec<u8>)
    ensures
        copy@ == bytes@,
{
    let mut copy: Vec<u8> = Vec::new();
    let mut i: usize = 0;
    while i < bytes.len()
        invariant
            i <= bytes@.len(),
            copy@ == bytes@.take(i as int),
        decreases bytes@.len() - i,
    {
        copy.push(bytes[i]);
        i += 1;
    }
    copy
}

/// The placeholder for "no move" and "no author": 36 zero bytes.
pub fn genesis() -> (bytes: Vec<u8>)
    ensures
        bytes@ == zeros(GENESIS_BYTES as nat),
{
    let mut bytes: Vec<u8> = Vec::new();
    let mut i: usize = 0;
    while i < GENESIS_BYTES
        invariant
            i <= GENESIS_BYTES,
            bytes@ == zeros(i as nat),
        decreases GENESIS_BYTES - i,
    {
        bytes.push(0);
        i += 1;
    }
    bytes
}

/// The number of moves in the log, as a 32-bit count.
pub fn get_number_of_moves(links: &Vec<MoveLink>) -> (n: u32)
    ensures
        n == links@.len() as int % 0x1_0000_0000int,
{
    let len: u64 = links.len() as u64;
    (len % 0x1_0000_0000u64) as u32
}

/// A board with where it comes from.
pub fn with_provenance(board: &Board, creator: &Vec<u8>, creation_hash: &Vec<u8>) -> (r:
    BoardWithMetadata)
    requires
        board.wf(),
    ensures
        r@ == (Snapshot {
            bytes: grid_bytes(board@),
            creator: creator@,
            creation_hash: creation_hash@,
        }),
{
    BoardWithMetadata {
        bytes: board.to_bytes(),
        creator: copy_bytes(creator),
        creation_hash: copy_bytes(creation_hash),
    }
}

/// The current board, with the last move of the log and that move's author,
/// `creator`, as its provenance. The board of the empty log comes with the
/// placeholder for both, and `creator` is not looked at.
pub fn get_latest_board(links: &Vec<MoveLink>, creator: &Vec<u8>) -> (r: Result<
    BoardWithMetadata,
    BoardError,
>)
    ensures
        match r {
            Ok(board) => latest_snapshot(links@, creator@) == Ok::<Snapshot, BoardError>(board@),
            Err(e) => latest_snapshot(links@, creator@) == Err::<Snapshot, BoardError>(e),
        },
{
    let board = match latest_board(links) {
        Ok(board) => board,
        Err(e) => {
            return Err(e);
        },
    };
    let count: usize = links.len();
    if count == 0 {
        Ok(with_provenance(&board, &genesis(), &genesis()))
    } else {
        Ok(with_provenance(&board, creator, &links[count - 1].target))
    }
}

/// The board as of the move with the given identifier, made by `creator`.
pub fn get_board_at_move(links: &Vec<MoveLink>, move_action_hash: &Vec<u8>, creator: &Vec<u8>) -> (r:
    Result<BoardWithMetadata, BoardError>)
    ensures
        match r {
            Ok(board) => snapshot_at_move(links@, move_action_hash@, creator@) == Ok::<
                Snapshot,
                BoardError,
            >(board@),
            Err(e) => snapshot_at_move(links@, move_action_hash@, creator@) == Err::<
                Snapshot,
                BoardError,
            >(e),
        },
{
    match _get_board_at_move(links, move_action_hash) {
        Ok(board) => Ok(with_provenance(&board, creator, move_action_hash)),
        Err(e) => Err(e),
    }
}

/// The current board is the board as of the last move of the log, where no
/// earlier move bears its identifier.
pub proof fn lemma_latest_is_last_move(links: Seq<MoveLink>, creator: Seq<u8>)
    requires
        links.len() > 0,
        forall|j: int|
            0 <= j < links.len() - 1 ==> (#[trigger] links[j]).target@ != links.last().target@,
    ensures
        latest_snapshot(links, creator) == snapshot_at_move(links, links.last().target@, creator),
{
    lemma_prefix_consistency(links, links.len() - 1);
    assert(links.take(links.len() as int) =~= links);
}

/// The boards as of each of the moves, in order; the first move without a
/// board fails the whole request.
pub fn get_boards_from_moves(links: &Vec<MoveLink>, moves: &Vec<MoveRef>) -> (r: Result<
    Vec<BoardWithMetadata>,
    BoardError,
>)
    ensures
        match r {
            Ok(boards) => snapshots_at_moves(links@, moves@) == Ok::<Seq<Snapshot>, BoardError>(
                snapshot_views(boards@),
            ),
            Err(e) => snapshots_at_moves(links@, moves@) == Err::<Seq<Snapshot>, BoardError>(e),
        },
{
    let mut boards: Vec<BoardWithMetadata> = Vec::new();
    let mut i: usize = 0;
    proof {
        assert(snapshot_views(boards@) =~= Seq::<Snapshot>::empty());
    }
    while i < moves.len()
        invariant
            i <= moves@.len(),
            snapshots_at_moves(links@, moves@.take(i as int)) == Ok::<Seq<Snapshot>, BoardError>(
                snapshot_views(boards@),
            ),
        decreases moves@.len() - i,
    {
        let ghost before = snapshot_views(boards@);
        proof {
            let next = moves@.take(i as int + 1);
            assert(next.drop_last() =~= moves@.take(i as int));
        }
        match get_board_at_move(links, &moves[i].hash, &moves[i].creator) {
            Ok(board) => {
                boards.push(board);
                proof {
                    assert(snapshot_views(boards@) =~= before.push(board@));
                }
            },
            Err(e) => {
                proof {
                    lemma_snapshots_fail_on(links@, moves@, i as int + 1);
                }
                return Err(e);
            },
        }
        i += 1;
    }
    proof {
        assert(moves@.take(moves@.len() as int) =~= moves@);
    }
    Ok(boards)
}

/// A request whose beginning fails fails, with the error of its beginning.
pub proof fn lemma_snapshots_fail_on(links: Seq<MoveLink>, moves: Seq<MoveRef>, n: int)
    requires
        0 <= n <= moves.len(),
        snapshots_at_moves(links, moves.take(n)).is_err(),
    ensures
        snapshots_at_moves(links, moves) == snapshots_at_moves(links, moves.take(n)),
    decreases moves.len(),
{
    if n == moves.len() {
        assert(moves.take(n) =~= moves);
    } else {
        assert(moves.drop_last().take(n) =~= moves.take(n));
        lemma_snapshots_fail_on(links, moves.drop_last(), n);
    }
}

/// The board for a token, without provenance.
pub fn _get_board_from_link(links: &Vec<MoveLink>, request: &TokenRequest) -> (r: Result<
    Board,
    BoardError,
>)
    ensures
        match r {
            Ok(board) => board.wf() && token_grid(
                links@,
                request.base@,
                target_views(request.targets@),
            ) == Ok::<Seq<Seq<Tile>>, BoardError>(board@),
            Err(e) => token_grid(links@, request.base@, target_views(request.targets@)) == Err::<
                Seq<Seq<Tile>>,
                BoardError,
            >(e),
        },
{
    if request.base.len() != 39 || request.targets.len() == 0 {
        return Err(BoardError::TokenNotFound);
    }
    _get_board_at_move(links, &request.targets[0])
}

/// The board for a token, with its provenance and the token's identifier.
pub fn get_board_from_link(links: &Vec<MoveLink>, request: &TokenRequest) -> (r: Result<
    BoardWithMetadataAndId,
    BoardError,
>)
    ensures
        match r {
            Ok(board) => token_snapshot(links@, *request) == Ok::<(Snapshot, Seq<u8>), BoardError>(
                board@,
            ),
            Err(e) => token_snapshot(links@, *request) == Err::<(Snapshot, Seq<u8>), BoardError>(e),
        },
{
    let id = match token_id_of(&request.base) {
        Some(id) => id,
        None => {
            return Err(BoardError::TokenNotFound);
        },
    };
    if request.targets.len() == 0 {
        return Err(BoardError::TokenNotFound);
    }
    match get_board_at_move(links, &request.targets[0], &request.creator) {
        Ok(board) => Ok(BoardWithMetadataAndId { board, id }),
        Err(e) => Err(e),
    }
}

/// The boards of those of the tokens that have one; the others are left
/// out.
pub fn get_boards_from_links(links: &Vec<MoveLink>, requests: &Vec<TokenRequest>) -> (boards: Vec<
    BoardWithMetadataAndId,
>)
    ensures
        token_views(boards@) == token_snapshots(links@, requests@),
{
    let mut boards: Vec<BoardWithMetadataAndId> = Vec::new();
    let mut i: usize = 0;
    while i < requests.len()
        invariant
            i <= requests@.len(),
            token_views(boards@) == token_snapshots(links@, requests@.take(i as int)),
        decreases requests@.len() - i,
    {
        proof {
            let next = requests@.take(i as int + 1);
            assert(next.drop_last() =~= requests@.take(i as int));
        }
        if let Ok(board) = get_board_from_link(links, &requests[i]) {
            boards.push(board);
        }
        i += 1;
    }
    proof {
        assert(requests@.take(requests@.len() as int) =~= requests@);
    }
    boards
}

} // verus!
