use vstd::prelude::*;
use crate::board::{move_views, replay, Board};
use crate::game_move::{decoding, DecodeError, GameMove, PixelChange};
use crate::tile::Tile;

verus! {

/// One entry of the log of moves: the identifier of the move and the
/// move's wire form.
#[derive(Clone, Debug, PartialEq, Eq, Hash)]
pub struct MoveLink {
    pub target: Vec<u8>,
    pub tag: Vec<u8>,
}

/// Why a board could not be derived from the log.
#[derive(Clone, Copy, Debug, PartialEq, Eq, Structural)]
pub enum BoardError {
    /// The log holds no move with the identifier that was asked for.
    MoveNotFound,
    /// No move is registered for the token.
    TokenNotFound,
    /// A move of the log does not decode.
    Decode(DecodeError),
}

/// The wire forms of the moves of a log, in log order.
pub open spec fn tags(links: Seq<MoveLink>) -> Seq<Seq<u8>> {
    Seq::new(links.len(), |i: int| links[i].tag@)
}

/// The identifiers of the moves of a log, in log order.
pub open spec fn targets(links: Seq<MoveLink>) -> Seq<Seq<u8>> {
    Seq::new(links.len(), |i: int| links[i].target@)
}

/// The moves that the wire forms decode to, all or none: the error is
/// that of the first one that does not decode.
pub open spec fn decoded_log(tags: Seq<Seq<u8>>) -> Result<Seq<Seq<PixelChange>>, DecodeError>
    decreases tags.len(),
{
    if tags.len() == 0 {
        Ok(Seq::empty())
    } else {
        match decoded_log(tags.drop_last()) {
            Err(e) => Err(e),
            Ok(moves) => match decoding(tags.last()) {
                Err(e) => Err(e),
                Ok(changes) => Ok(moves.push(changes)),
            },
        }
    }
}

/// Where the identifier first occurs in the log.
pub open spec fn position_of(ids: Seq<Seq<u8>>, id: Seq<u8>) -> Option<int>
    decreases ids.len(),
{
    if ids.len() == 0 {
        None
    } else {
        match position_of(ids.drop_last(), id) {
            Some(i) => Some(i),
            None => if ids.last() == id {
                Some(ids.len() - 1)
            } else {
                None
            },
        }
    }
}

/// The grid after every move of the log.
pub open spec fn latest_grid(links: Seq<MoveLink>) -> Result<Seq<Seq<Tile>>, BoardError> {
    match decoded_log(tags(links)) {
        Ok(moves) => Ok(replay(moves)),
        Err(e) => Err(BoardError::Decode(e)),
    }
}

/// The grid as of the move with the given identifier: the replay of the
/// log up to and including the first entry with that identifier.
pub open spec fn grid_at_move(links: Seq<MoveLink>, id: Seq<u8>) -> Result<
    Seq<Seq<Tile>>,
    BoardError,
> {
    match position_of(targets(links), id) {
        None => Err(BoardError::MoveNotFound),
        Some(k) => latest_grid(links.take(k + 1)),
    }
}

/// `position_of` gives the first place at which the identifier stands.
pub proof fn lemma_position_of(ids: Seq<Seq<u8>>, id: Seq<u8>)
    ensures
        match position_of(ids, id) {
            Some(k) => 0 <= k < ids.len() && ids[k] == id && forall|j: int|
                0 <= j < k ==> #[trigger] ids[j] != id,
            None => forall|j: int| 0 <= j < ids.len() ==> #[trigger] ids[j] != id,
        },
    decreases ids.len(),
{
    if ids.len() > 0 {
        lemma_position_of(ids.drop_last(), id);
        match position_of(ids.drop_last(), id) {
            Some(k) => {
                assert forall|j: int| 0 <= j < k implies #[trigger] ids[j] != id by {
                    assert(ids.drop_last()[j] == ids[j]);
                }
            },
            None => {
                assert forall|j: int| 0 <= j < ids.len() - 1 implies #[trigger] ids[j] != id by {
                    assert(ids.drop_last()[j] == ids[j]);
                }
            },
        }
    }
}

/// Whether two byte strings are the same.
pub fn same_bytes(a: &Vec<u8>, b: &Vec<u8>) -> (r: bool)
    ensures
        r == (a@ == b@),
{
    if a.len() != b.len() {
        return false;
    }
    let mut i: usize = 0;
    while i < a.len()
        invariant
            i <= a@.len(),
            a@.len() == b@.len(),
            forall|j: int| 0 <= j < i ==> a@[j] == b@[j],
        decreases a@.len() - i,
    {
        if a[i] != b[i] {
            return false;
        }
        i += 1;
    }
    assert(a@ =~= b@);
    true
}

/// Decodes the first `upto` moves of the log from their wire forms, all or
/// none.
pub fn decode_prefix(links: &Vec<MoveLink>, upto: usize) -> (r: Result<Vec<GameMove>, DecodeError>)
    requires
        upto <= links@.len(),
    ensures
        match r {
            Ok(moves) => decoded_log(tags(links@.take(upto as int))) == Ok::<
                Seq<Seq<PixelChange>>,
                DecodeError,
            >(move_views(moves@)),
            Err(e) => decoded_log(tags(links@.take(upto as int))) == Err::<
                Seq<Seq<PixelChange>>,
                DecodeError,
            >(e),
        },
{
    let mut moves: Vec<GameMove> = Vec::new();
    let mut i: usize = 0;
    proof {
        assert(move_views(moves@) =~= Seq::<Seq<PixelChange>>::empty());
    }
    while i < upto
        invariant
            i <= upto <= links@.len(),
            decoded_log(tags(links@.take(i as int))) == Ok::<Seq<Seq<PixelChange>>, DecodeError>(
                move_views(moves@),
            ),
        decreases upto - i,
    {
        let ghost done = tags(links@.take(i as int));
        let ghost next = tags(links@.take(i as int + 1));
        let ghost before = move_views(moves@);
        proof {
            assert(next.drop_last() =~= done);
        }
        match GameMove::from_bytes(links[i].tag.as_slice()) {
            Ok(game_move) => {
                moves.push(game_move);
                proof {
                    assert(move_views(moves@) =~= before.push(game_move@));
                }
            },
            Err(e) => {
                proof {
                    lemma_decoded_log_fails_on(tags(links@.take(upto as int)), i as int + 1);
                    assert(tags(links@.take(upto as int)).take(i as int + 1) =~= next);
                }
                return Err(e);
            },
        }
        i += 1;
    }
    Ok(moves)
}

/// A log whose beginning does not decode does not decode, and fails with
/// the error of its beginning.
pub proof fn lemma_decoded_log_fails_on(tags: Seq<Seq<u8>>, n: int)
    requires
        0 <= n <= tags.len(),
        decoded_log(tags.take(n)).is_err(),
    ensures
        decoded_log(tags) == decoded_log(tags.take(n)),
    decreases tags.len(),
{
    if n == tags.len() {
        assert(tags.take(n) =~= tags);
    } else {
        assert(tags.drop_last().take(n) =~= tags.take(n));
        lemma_decoded_log_fails_on(tags.drop_last(), n);
    }
}

/// Decodes every move of the log from the tags of its links.
pub fn get_all_game_moves_from_link_tags(links: &Vec<MoveLink>) -> (r: Result<
    Vec<GameMove>,
    DecodeError,
>)
    ensures
        match r {
            Ok(moves) => decoded_log(tags(links@)) == Ok::<Seq<Seq<PixelChange>>, DecodeError>(
                move_views(moves@),
            ),
            Err(e) => decoded_log(tags(links@)) == Err::<Seq<Seq<PixelChange>>, DecodeError>(e),
        },
{
    proof {
        assert(links@.take(links@.len() as int) =~= links@);
    }
    decode_prefix(links, links.len())
}

/// Where the move with the given identifier first stands in the log.
pub fn position_of_move(links: &Vec<MoveLink>, move_action_hash: &Vec<u8>) -> (r: Option<usize>)
    ensures
        match r {
            Some(k) => position_of(targets(links@), move_action_hash@) == Some(k as int) && k
                < links@.len(),
            None => position_of(targets(links@), move_action_hash@).is_none(),
        },
{
    let mut i: usize = 0;
    while i < links.len()
        invariant
            i <= links@.len(),
            forall|j: int| 0 <= j < i ==> #[trigger] targets(links@)[j] != move_action_hash@,
        decreases links@.len() - i,
    {
        if same_bytes(&links[i].target, move_action_hash) {
            proof {
                lemma_position_of(targets(links@), move_action_hash@);
                assert(targets(links@)[i as int] == move_action_hash@);
            }
            return Some(i);
        }
        i += 1;
    }
    proof {
        lemma_position_of(targets(links@), move_action_hash@);
    }
    None
}

/// The board after every move of the log.
pub fn latest_board(links: &Vec<MoveLink>) -> (r: Result<Board, BoardError>)
    ensures
        match r {
            Ok(board) => board.wf() && latest_grid(links@) == Ok::<Seq<Seq<Tile>>, BoardError>(
                board@,
            ),
            Err(e) => latest_grid(links@) == Err::<Seq<Seq<Tile>>, BoardError>(e),
        },
{
    match get_all_game_moves_from_link_tags(links) {
        Ok(game_moves) => Ok(Board::reconstruct_from_game_moves(&game_moves)),
        Err(e) => Err(BoardError::Decode(e)),
    }
}

/// The board as of the move with the given identifier: the log is cut
/// after that move and replayed.
pub fn _get_board_at_move(links: &Vec<MoveLink>, move_action_hash: &Vec<u8>) -> (r: Result<
    Board,
    BoardError,
>)
    ensures
        match r {
            Ok(board) => board.wf() && grid_at_move(links@, move_action_hash@) == Ok::<
                Seq<Seq<Tile>>,
                BoardError,
            >(board@),
            Err(e) => grid_at_move(links@, move_action_hash@) == Err::<Seq<Seq<Tile>>, BoardError>(
                e,
            ),
        },
{
    let pos = match position_of_move(links, move_action_hash) {
        Some(pos) => pos,
        None => {
            return Err(BoardError::MoveNotFound);
        },
    };
    let count: usize = links.len();
    assert(pos < count);
    match decode_prefix(links, pos + 1) {
        Ok(game_moves) => Ok(Board::reconstruct_from_game_moves(&game_moves)),
        Err(e) => Err(BoardError::Decode(e)),
    }
}

/// Prefix consistency: where a move stands at place `k` of the log and no
/// earlier entry bears its identifier, the board as of that move is the
/// replay of the log's first `k + 1` moves.
pub proof fn lemma_prefix_consistency(links: Seq<MoveLink>, k: int)
    requires
        0 <= k < links.len(),
        forall|j: int| 0 <= j < k ==> (#[trigger] links[j]).target@ != links[k].target@,
    ensures
        grid_at_move(links, links[k].target@) == latest_grid(links.take(k + 1)),
{
    let ids = targets(links);
    lemma_position_of(ids, links[k].target@);
    assert(ids[k] == links[k].target@);
}

} // verus!
