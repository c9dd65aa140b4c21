use vstd::prelude::*;
use crate::tile::{Color, BOARD_SIZE};

verus! {

/// Bytes that one change takes on the wire: x, y, red, green, blue, pattern.
pub const CHANGE_BYTES: usize = 6;

/// Most changes that a move may hold when it is created.
pub const MAX_CHANGES: usize = 20;

/// One edit of a move: the tile at (`x`, `y`) gets this colour and pattern.
#[derive(Clone, Copy, Debug, PartialEq, Eq, Structural, Hash)]
pub struct PixelChange {
    pub x: u8,
    pub y: u8,
    pub color: Color,
    pub graphic_option: u8,
}

/// Why bytes are not the encoding of a move.
#[derive(Clone, Copy, Debug, PartialEq, Eq, Structural)]
pub enum DecodeError {
    /// The length is not one count byte followed by six bytes for each
    /// change that the count byte declares.
    Length,
    /// The length fits, but some change lies outside the board.
    Coordinate,
}

impl DecodeError {
    /// The error in words.
    pub fn message(&self) -> (text: String)
        ensures
            text@ == match *self {
                DecodeError::Length => "The length of a move does not fit its count of changes"@,
                DecodeError::Coordinate => "A change of a move lies outside the board"@,
            },
    {
        match self {
            DecodeError::Length => {
                "The length of a move does not fit its count of changes".to_owned()
            },
            DecodeError::Coordinate => "A change of a move lies outside the board".to_owned(),
        }
    }
}

/// Why a move may not be appended to the log.
#[derive(Clone, Copy, Debug, PartialEq, Eq, Structural)]
pub enum MoveError {
    /// The move was made after the game's end.
    GameEnded,
    /// The bytes do not decode.
    Decode(DecodeError),
    /// The move changes nothing.
    NoChanges,
    /// The move holds more than `MAX_CHANGES` changes.
    TooManyChanges,
}

/// A change lies on the board.
pub open spec fn change_on_board(c: PixelChange) -> bool {
    c.x < BOARD_SIZE && c.y < BOARD_SIZE
}

/// The changes can be written down: the count fits its byte and every
/// change lies on the board.
pub open spec fn encodable(changes: Seq<PixelChange>) -> bool {
    &&& changes.len() <= 255
    &&& forall|k: int| 0 <= k < changes.len() ==> change_on_board(#[trigger] changes[k])
}

/// The byte at offset `j` (0 to 5) of a change's record.
pub open spec fn change_byte(c: PixelChange, j: int) -> u8 {
    if j == 0 {
        c.x
    } else if j == 1 {
        c.y
    } else if j == 2 {
        c.color.r
    } else if j == 3 {
        c.color.g
    } else if j == 4 {
        c.color.b
    } else {
        c.graphic_option
    }
}

/// The wire form of a list of changes: the count, then each record in order.
pub open spec fn encoding(changes: Seq<PixelChange>) -> Seq<u8> {
    Seq::new(
        (1 + 6 * changes.len()) as nat,
        |i: int|
            if i == 0 {
                changes.len() as u8
            } else {
                change_byte(changes[(i - 1) / 6], (i - 1) % 6)
            },
    )
}

/// The change that record `k` of `bytes` holds.
pub open spec fn record_at(bytes: Seq<u8>, k: int) -> PixelChange {
    PixelChange {
        x: bytes[1 + 6 * k],
        y: bytes[2 + 6 * k],
        color: Color { r: bytes[3 + 6 * k], g: bytes[4 + 6 * k], b: bytes[5 + 6 * k] },
        graphic_option: bytes[6 + 6 * k],
    }
}

/// The length of `bytes` is what its count byte declares.
pub open spec fn length_fits(bytes: Seq<u8>) -> bool {
    bytes.len() >= 1 && bytes.len() == 1 + 6 * (bytes[0] as int)
}

/// The changes that `bytes` declare, read without any check.
pub open spec fn records(bytes: Seq<u8>) -> Seq<PixelChange> {
    Seq::new(bytes[0] as nat, |k: int| record_at(bytes, k))
}

/// `bytes` is the encoding of a move.
pub open spec fn decodable(bytes: Seq<u8>) -> bool {
    length_fits(bytes) && encodable(records(bytes))
}

/// What decoding `bytes` gives.
pub open spec fn decoding(bytes: Seq<u8>) -> Result<Seq<PixelChange>, DecodeError> {
    if !length_fits(bytes) {
        Err(DecodeError::Length)
    } else if !encodable(records(bytes)) {
        Err(DecodeError::Coordinate)
    } else {
        Ok(records(bytes))
    }
}

/// What is asked of a new move at time `now`, in seconds, in a game that
/// ends at `game_end_time`: first the deadline, then the bytes, then the
/// number of changes.
pub open spec fn creation_verdict(bytes: Seq<u8>, now: i64, game_end_time: i64) -> Result<
    Seq<PixelChange>,
    MoveError,
> {
    if now > game_end_time {
        Err(MoveError::GameEnded)
    } else {
        match decoding(bytes) {
            Err(e) => Err(MoveError::Decode(e)),
            Ok(changes) => if changes.len() == 0 {
                Err(MoveError::NoChanges)
            } else if changes.len() > MAX_CHANGES {
                Err(MoveError::TooManyChanges)
            } else {
                Ok(changes)
            },
        }
    }
}

/// An immutable batch of tile edits, in the order in which they apply.
#[derive(Clone, Debug, PartialEq, Eq, Hash)]
pub struct GameMove {
    pub changes: Vec<PixelChange>,
}

impl View for GameMove {
    type V = Seq<PixelChange>;

    open spec fn view(&self) -> Seq<PixelChange> {
        self.changes@
    }
}

impl GameMove {
    /// Reads a move from its wire form. All or nothing: a single bad record
    /// fails the whole move.
    pub fn from_bytes(bytes: &[u8]) -> (r: Result<GameMove, DecodeError>)
        ensures
            match r {
                Ok(m) => decoding(bytes@) == Ok::<Seq<PixelChange>, DecodeError>(m@),
                Err(e) => decoding(bytes@) == Err::<Seq<PixelChange>, DecodeError>(e),
            },
    {
        if bytes.len() < 1 {
            return Err(DecodeError::Length);
        }
        let count: usize = bytes[0] as usize;
        if bytes.len() != 1 + CHANGE_BYTES * count {
            return Err(DecodeError::Length);
        }
        let mut changes: Vec<PixelChange> = Vec::new();
        let mut k: usize = 0;
        while k < count
            invariant
                k <= count,
                count == bytes@[0] as usize,
                bytes@.len() == 1 + 6 * count,
                changes@.len() == k,
                forall|i: int| 0 <= i < k ==> #[trigger] changes@[i] == record_at(bytes@, i),
                forall|i: int| 0 <= i < k ==> change_on_board(#[trigger] records(bytes@)[i]),
            decreases count - k,
        {
            let at: usize = 1 + CHANGE_BYTES * k;
            let change = PixelChange {
                x: bytes[at],
                y: bytes[at + 1],
                color: Color { r: bytes[at + 2], g: bytes[at + 3], b: bytes[at + 4] },
                graphic_option: bytes[at + 5],
            };
            if change.x as usize >= BOARD_SIZE || change.y as usize >= BOARD_SIZE {
                assert(!change_on_board(records(bytes@)[k as int]));
                return Err(DecodeError::Coordinate);
            }
            changes.push(change);
            k += 1;
        }
        assert(changes@ =~= records(bytes@));
        Ok(GameMove { changes })
    }

    /// Writes the move in its wire form. `None` where the move cannot be
    /// written: more than 255 changes, or a change outside the board.
    pub fn to_bytes(&self) -> (r: Option<Vec<u8>>)
        ensures
            match r {
                Some(bytes) => encodable(self@) && bytes@ == encoding(self@),
                None => !encodable(self@),
            },
    {
        let n: usize = self.changes.len();
        if n > 255 {
            return None;
        }
        let mut bytes: Vec<u8> = Vec::new();
        bytes.push(n as u8);
        let mut k: usize = 0;
        while k < n
            invariant
                k <= n,
                n == self.changes@.len(),
                n <= 255,
                bytes@.len() == 1 + 6 * k,
                forall|i: int| 0 <= i < 1 + 6 * k ==> #[trigger] bytes@[i] == encoding(self@)[i],
                forall|i: int| 0 <= i < k ==> change_on_board(#[trigger] self@[i]),
            decreases n - k,
        {
            let c = self.changes[k];
            if c.x as usize >= BOARD_SIZE || c.y as usize >= BOARD_SIZE {
                return None;
            }
            bytes.push(c.x);
            bytes.push(c.y);
            bytes.push(c.color.r);
            bytes.push(c.color.g);
            bytes.push(c.color.b);
            bytes.push(c.graphic_option);
            k += 1;
        }
        Some(bytes)
    }

    /// The number of tile edits in the move.
    pub fn count_changes(&self) -> (n: usize)
        ensures
            n == self@.len(),
    {
        self.changes.len()
    }
}

/// Decides whether the move in `game_move_bytes`, made at `now` (seconds),
/// may be appended to the log of a game that ends at `game_end_time`.
pub fn create_game_move(game_move_bytes: &[u8], now: i64, game_end_time: i64) -> (r: Result<
    GameMove,
    MoveError,
>)
    ensures
        match r {
            Ok(m) => creation_verdict(game_move_bytes@, now, game_end_time) == Ok::<
                Seq<PixelChange>,
                MoveError,
            >(m@),
            Err(e) => creation_verdict(game_move_bytes@, now, game_end_time) == Err::<
                Seq<PixelChange>,
                MoveError,
            >(e),
        },
{
    if now > game_end_time {
        return Err(MoveError::GameEnded);
    }
    let game_move = match GameMove::from_bytes(game_move_bytes) {
        Ok(game_move) => game_move,
        Err(e) => {
            return Err(MoveError::Decode(e));
        },
    };
    if game_move.count_changes() == 0 {
        return Err(MoveError::NoChanges);
    }
    if game_move.count_changes() > MAX_CHANGES {
        return Err(MoveError::TooManyChanges);
    }
    Ok(game_move)
}

/// Round trip, from the move: an encodable list of changes decodes from its
/// own encoding, unchanged.
pub proof fn lemma_decode_of_encode(changes: Seq<PixelChange>)
    requires
        encodable(changes),
    ensures
        decoding(encoding(changes)) == Ok::<Seq<PixelChange>, DecodeError>(changes),
{
    let bytes = encoding(changes);
    assert forall|k: int| 0 <= k < changes.len() implies #[trigger] records(bytes)[k]
        == changes[k] by {
    }
    assert(records(bytes) =~= changes);
}

/// Round trip, from the wire: bytes that decode are the encoding of what
/// they decode to, so the encoding is canonical.
pub proof fn lemma_encode_of_decode(bytes: Seq<u8>)
    requires
        decodable(bytes),
    ensures
        decoding(bytes) == Ok::<Seq<PixelChange>, DecodeError>(records(bytes)),
        encoding(records(bytes)) == bytes,
{
    let changes = records(bytes);
    assert forall|i: int| 0 <= i < bytes.len() implies #[trigger] encoding(changes)[i]
        == bytes[i] by {
    }
}

/// Bounds at creation: before the deadline, bytes that decode are accepted
/// exactly when they hold between one and `MAX_CHANGES` changes.
pub proof fn lemma_creation_bounds(bytes: Seq<u8>, now: i64, game_end_time: i64)
    requires
        now <= game_end_time,
        decodable(bytes),
    ensures
        bytes[0] == 0 ==> creation_verdict(bytes, now, game_end_time) == Err::<
            Seq<PixelChange>,
            MoveError,
        >(MoveError::NoChanges),
        bytes[0] > MAX_CHANGES ==> creation_verdict(bytes, now, game_end_time) == Err::<
            Seq<PixelChange>,
            MoveError,
        >(MoveError::TooManyChanges),
        1 <= bytes[0] <= MAX_CHANGES ==> creation_verdict(bytes, now, game_end_time) == Ok::<
            Seq<PixelChange>,
            MoveError,
        >(records(bytes)),
{
}

} // verus!
