use vstd::prelude::*;
use crate::game_move::{GameMove, PixelChange};
use crate::tile::{Tile, BOARD_SIZE};

verus! {

/// The tile that a change leaves behind: its colour and its pattern, with
/// nothing kept of what was there.
pub open spec fn painted(c: PixelChange) -> Tile {
    Tile { color: Some(c.color), graphic_option: Some(c.graphic_option) }
}

/// The change targets the tile at (`x`, `y`).
pub open spec fn targets(c: PixelChange, x: int, y: int) -> bool {
    c.x == x && c.y == y
}

/// The tile at (`x`, `y`) once the changes have been applied, in order, to a
/// cell that held `base`: what the last change that targets the cell
/// painted, or `base` where none does.
pub open spec fn tile_over(base: Tile, changes: Seq<PixelChange>, x: int, y: int) -> Tile
    decreases changes.len(),
{
    if changes.len() == 0 {
        base
    } else if targets(changes.last(), x, y) {
        painted(changes.last())
    } else {
        tile_over(base, changes.drop_last(), x, y)
    }
}

/// The tile at (`x`, `y`) after the changes have been applied to the blank
/// board.
pub open spec fn tile_after(changes: Seq<PixelChange>, x: int, y: int) -> Tile {
    tile_over(Tile::blank(), changes, x, y)
}

/// The changes of all the moves, in log order.
pub open spec fn all_changes(moves: Seq<Seq<PixelChange>>) -> Seq<PixelChange>
    decreases moves.len(),
{
    if moves.len() == 0 {
        Seq::empty()
    } else {
        all_changes(moves.drop_last()) + moves.last()
    }
}

/// The grid that the changes produce from the blank board, as columns of
/// tiles: `grid[x][y]`.
pub open spec fn grid_after(changes: Seq<PixelChange>) -> Seq<Seq<Tile>> {
    Seq::new(
        BOARD_SIZE as nat,
        |x: int| Seq::new(BOARD_SIZE as nat, |y: int| tile_after(changes, x, y)),
    )
}

/// The grid that replaying the moves produces.
pub open spec fn replay(moves: Seq<Seq<PixelChange>>) -> Seq<Seq<Tile>> {
    grid_after(all_changes(moves))
}

/// The moves as lists of changes.
pub open spec fn move_views(moves: Seq<GameMove>) -> Seq<Seq<PixelChange>> {
    Seq::new(moves.len(), |i: int| moves[i]@)
}

/// The byte at offset `j` (0 to 5) of a tile's record: whether it has a
/// colour, the colour, whether it has a pattern, the pattern. What a tile
/// lacks is written as zero.
pub open spec fn tile_byte(t: Tile, j: int) -> u8 {
    if j == 0 {
        if t.color is Some {
            1
        } else {
            0
        }
    } else if j == 1 {
        match t.color {
            Some(c) => c.r,
            None => 0,
        }
    } else if j == 2 {
        match t.color {
            Some(c) => c.g,
            None => 0,
        }
    } else if j == 3 {
        match t.color {
            Some(c) => c.b,
            None => 0,
        }
    } else if j == 4 {
        if t.graphic_option is Some {
            1
        } else {
            0
        }
    } else {
        match t.graphic_option {
            Some(g) => g,
            None => 0,
        }
    }
}

/// The serialised content of a grid: the six-byte records of its tiles,
/// column after column.
pub open spec fn grid_bytes(grid: Seq<Seq<Tile>>) -> Seq<u8> {
    Seq::new(
        (6 * BOARD_SIZE * BOARD_SIZE) as nat,
        |i: int| tile_byte(grid[(i / 6) / BOARD_SIZE as int][(i / 6) % BOARD_SIZE as int], i % 6),
    )
}

/// The grid has `BOARD_SIZE` columns of `BOARD_SIZE` tiles.
pub open spec fn is_square(grid: Seq<Seq<Tile>>) -> bool {
    &&& grid.len() == BOARD_SIZE
    &&& forall|x: int| 0 <= x < BOARD_SIZE ==> (#[trigger] grid[x]).len() == BOARD_SIZE
}

/// A board as it comes from outside: columns of tiles, of any shape.
#[derive(Clone, Debug, PartialEq, Eq, Hash)]
pub struct BoardInput {
    pub tiles: Vec<Vec<Tile>>,
}

impl View for BoardInput {
    type V = Seq<Seq<Tile>>;

    open spec fn view(&self) -> Seq<Seq<Tile>> {
        Seq::new(self.tiles@.len(), |x: int| self.tiles@[x]@)
    }
}

/// A board payload does not have the shape of the board.
#[derive(Clone, Copy, Debug, PartialEq, Eq, Structural)]
pub struct BoardShapeError;

/// A square grid of `BOARD_SIZE` by `BOARD_SIZE` tiles, held column after
/// column.
#[derive(Clone, Debug, PartialEq, Eq, Hash)]
pub struct Board {
    tiles: Vec<Tile>,
}

impl View for Board {
    type V = Seq<Seq<Tile>>;

    closed spec fn view(&self) -> Seq<Seq<Tile>> {
        Seq::new(
            BOARD_SIZE as nat,
            |x: int| Seq::new(BOARD_SIZE as nat, |y: int| self.tiles@[x * BOARD_SIZE + y]),
        )
    }
}

impl Board {
    /// The board holds exactly one tile for each cell.
    pub closed spec fn wf(&self) -> bool {
        self.tiles@.len() == BOARD_SIZE * BOARD_SIZE
    }

    /// The tile at (`x`, `y`).
    pub open spec fn tile(&self, x: int, y: int) -> Tile {
        self@[x][y]
    }

    /// The view of a board is a square grid.
    pub proof fn lemma_view_is_square(&self)
        ensures
            self@.len() == BOARD_SIZE,
            forall|x: int| 0 <= x < BOARD_SIZE ==> (#[trigger] self@[x]).len() == BOARD_SIZE,
    {
    }

    /// The board on which nothing was painted.
    pub fn new() -> (b: Board)
        ensures
            b.wf(),
            b@ == grid_after(Seq::empty()),
    {
        let mut tiles: Vec<Tile> = Vec::new();
        let mut i: usize = 0;
        while i < BOARD_SIZE * BOARD_SIZE
            invariant
                i <= BOARD_SIZE * BOARD_SIZE,
                tiles@.len() == i,
                forall|k: int| 0 <= k < i ==> #[trigger] tiles@[k] == Tile::blank(),
            decreases BOARD_SIZE * BOARD_SIZE - i,
        {
            tiles.push(Tile::empty());
            i += 1;
        }
        let b = Board { tiles };
        assert(b@ =~~= grid_after(Seq::empty()));
        b
    }

    /// Reads the tile at (`x`, `y`); `None` off the board.
    pub fn get(&self, x: usize, y: usize) -> (t: Option<Tile>)
        requires
            self.wf(),
        ensures
            t == if x < BOARD_SIZE && y < BOARD_SIZE {
                Some(self.tile(x as int, y as int))
            } else {
                None
            },
    {
        if x < BOARD_SIZE && y < BOARD_SIZE {
            Some(self.tiles[x * BOARD_SIZE + y])
        } else {
            None
        }
    }

    /// Overwrites the tile that the change targets. A change that lies off
    /// the board targets no tile.
    pub fn apply_change(&mut self, change: PixelChange)
        requires
            old(self).wf(),
        ensures
            final(self).wf(),
            forall|x: int, y: int|
                0 <= x < BOARD_SIZE && 0 <= y < BOARD_SIZE ==> #[trigger] final(self).tile(x, y)
                    == if targets(change, x, y) {
                    painted(change)
                } else {
                    old(self).tile(x, y)
                },
    {
        let x: usize = change.x as usize;
        let y: usize = change.y as usize;
        if x < BOARD_SIZE && y < BOARD_SIZE {
            let t = Tile { color: Some(change.color), graphic_option: Some(change.graphic_option) };
            self.tiles.set(x * BOARD_SIZE + y, t);
        }
    }

    /// Applies the changes of one move, in order.
    pub fn apply_move(&mut self, game_move: &GameMove)
        requires
            old(self).wf(),
        ensures
            final(self).wf(),
            forall|x: int, y: int|
                0 <= x < BOARD_SIZE && 0 <= y < BOARD_SIZE ==> #[trigger] final(self).tile(x, y)
                    == tile_over(old(self).tile(x, y), game_move@, x, y),
    {
        let n: usize = game_move.changes.len();
        let mut k: usize = 0;
        while k < n
            invariant
                k <= n,
                n == game_move@.len(),
                self.wf(),
                forall|x: int, y: int|
                    0 <= x < BOARD_SIZE && 0 <= y < BOARD_SIZE ==> #[trigger] self.tile(x, y)
                        == tile_over(old(self).tile(x, y), game_move@.take(k as int), x, y),
            decreases n - k,
        {
            let ghost before = *self;
            self.apply_change(game_move.changes[k]);
            proof {
                let next = game_move@.take(k as int + 1);
                assert(next.drop_last() =~= game_move@.take(k as int));
                assert forall|x: int, y: int|
                    0 <= x < BOARD_SIZE && 0 <= y < BOARD_SIZE implies #[trigger] self.tile(x, y)
                    == tile_over(old(self).tile(x, y), next, x, y) by {
                    assert(before.tile(x, y) == tile_over(
                        old(self).tile(x, y),
                        game_move@.take(k as int),
                        x,
                        y,
                    ));
                }
            }
            k += 1;
        }
        proof {
            assert(game_move@.take(n as int) =~= game_move@);
        }
    }

    /// Replays the moves, in log order, on a blank board.
    pub fn reconstruct_from_game_moves(game_moves: &Vec<GameMove>) -> (b: Board)
        ensures
            b.wf(),
            b@ == replay(move_views(game_moves@)),
    {
        let mut board = Board::new();
        let n: usize = game_moves.len();
        let mut i: usize = 0;
        while i < n
            invariant
                i <= n,
                n == game_moves@.len(),
                board.wf(),
                board@ == replay(move_views(game_moves@).take(i as int)),
            decreases n - i,
        {
            let ghost done = move_views(game_moves@).take(i as int);
            let ghost next = move_views(game_moves@).take(i as int + 1);
            let ghost before = board;
            board.apply_move(&game_moves[i]);
            proof {
                assert(next.drop_last() =~= done);
                board.lemma_view_is_square();
                assert forall|x: int, y: int|
                    0 <= x < BOARD_SIZE && 0 <= y < BOARD_SIZE implies board@[x][y]
                    == #[trigger] replay(next)[x][y] by {
                    lemma_tile_over_concat(
                        Tile::blank(),
                        all_changes(done),
                        game_moves@[i as int]@,
                        x,
                        y,
                    );
                    assert(board.tile(x, y) == tile_over(
                        before.tile(x, y),
                        game_moves@[i as int]@,
                        x,
                        y,
                    ));
                }
                assert(board@ =~~= replay(next));
            }
            i += 1;
        }
        proof {
            assert(move_views(game_moves@).take(n as int) =~= move_views(game_moves@));
        }
        board
    }

    /// Takes a board payload for a board, where it has the board's shape.
    pub fn from_board_input(input: &BoardInput) -> (r: Result<Board, BoardShapeError>)
        ensures
            match r {
                Ok(b) => is_square(input@) && b.wf() && b@ == input@,
                Err(_) => !is_square(input@),
            },
    {
        if input.tiles.len() != BOARD_SIZE {
            return Err(BoardShapeError);
        }
        let mut tiles: Vec<Tile> = Vec::new();
        let mut x: usize = 0;
        while x < BOARD_SIZE
            invariant
                x <= BOARD_SIZE,
                input.tiles@.len() == BOARD_SIZE,
                tiles@.len() == x * BOARD_SIZE,
                forall|c: int| 0 <= c < x ==> (#[trigger] input@[c]).len() == BOARD_SIZE,
                forall|c: int, d: int|
                    0 <= c < x && 0 <= d < BOARD_SIZE ==> tiles@[c * BOARD_SIZE + d]
                        == #[trigger] input@[c][d],
            decreases BOARD_SIZE - x,
        {
            let column = &input.tiles[x];
            assert(column@ == input@[x as int]);
            if column.len() != BOARD_SIZE {
                return Err(BoardShapeError);
            }
            let mut y: usize = 0;
            while y < BOARD_SIZE
                invariant
                    x < BOARD_SIZE,
                    y <= BOARD_SIZE,
                    column@ == input@[x as int],
                    column@.len() == BOARD_SIZE,
                    tiles@.len() == x * BOARD_SIZE + y,
                    forall|c: int, d: int|
                        0 <= c < x && 0 <= d < BOARD_SIZE ==> tiles@[c * BOARD_SIZE + d]
                            == #[trigger] input@[c][d],
                    forall|d: int|
                        0 <= d < y ==> tiles@[x * BOARD_SIZE + d] == #[trigger] input@[x as int][d],
                decreases BOARD_SIZE - y,
            {
                tiles.push(column[y]);
                y += 1;
            }
            x += 1;
        }
        let b = Board { tiles };
        assert(b@ =~~= input@);
        Ok(b)
    }

    /// The serialised content of the board.
    pub fn to_bytes(&self) -> (bytes: Vec<u8>)
        requires
            self.wf(),
        ensures
            bytes@ == grid_bytes(self@),
    {
        let mut bytes: Vec<u8> = Vec::new();
        let mut k: usize = 0;
        while k < BOARD_SIZE * BOARD_SIZE
            invariant
                k <= BOARD_SIZE * BOARD_SIZE,
                self.wf(),
                bytes@.len() == 6 * k,
                forall|i: int| 0 <= i < 6 * k ==> #[trigger] bytes@[i] == grid_bytes(self@)[i],
            decreases BOARD_SIZE * BOARD_SIZE - k,
        {
            let t = self.tiles[k];
            let (has_color, r, g, b): (u8, u8, u8, u8) = match t.color {
                Some(c) => (1, c.r, c.g, c.b),
                None => (0, 0, 0, 0),
            };
            let (has_option, option): (u8, u8) = match t.graphic_option {
                Some(g) => (1, g),
                None => (0, 0),
            };
            bytes.push(has_color);
            bytes.push(r);
            bytes.push(g);
            bytes.push(b);
            bytes.push(has_option);
            bytes.push(option);
            k += 1;
        }
        bytes
    }

    /// Two boards are the same when every tile matches.
    pub fn same_as(&self, other: &Board) -> (r: bool)
        requires
            self.wf(),
            other.wf(),
        ensures
            r == (self@ == other@),
    {
        let mut i: usize = 0;
        while i < BOARD_SIZE * BOARD_SIZE
            invariant
                i <= BOARD_SIZE * BOARD_SIZE,
                self.wf(),
                other.wf(),
                forall|k: int| 0 <= k < i ==> #[trigger] self.tiles@[k] == other.tiles@[k],
            decreases BOARD_SIZE * BOARD_SIZE - i,
        {
            let a = self.tiles[i];
            let b = other.tiles[i];
            if !tile_eq(a, b) {
                proof {
                    let x = i as int / BOARD_SIZE as int;
                    let y = i as int % BOARD_SIZE as int;
                    assert(self@[x][y] == a);
                }
                return false;
            }
            i += 1;
        }
        assert(self@ =~~= other@);
        true
    }
}

/// Whether two tiles are the same.
pub fn tile_eq(a: Tile, b: Tile) -> (r: bool)
    ensures
        r == (a == b),
{
    let colors = match (a.color, b.color) {
        (None, None) => true,
        (Some(p), Some(q)) => p.r == q.r && p.g == q.g && p.b == q.b,
        _ => false,
    };
    let options = match (a.graphic_option, b.graphic_option) {
        (None, None) => true,
        (Some(p), Some(q)) => p == q,
        _ => false,
    };
    colors && options
}

/// Applying `first` and then `second` to a cell is applying the two lists
/// joined.
pub proof fn lemma_tile_over_concat(
    base: Tile,
    first: Seq<PixelChange>,
    second: Seq<PixelChange>,
    x: int,
    y: int,
)
    ensures
        tile_over(base, first + second, x, y) == tile_over(
            tile_over(base, first, x, y),
            second,
            x,
            y,
        ),
    decreases second.len(),
{
    if second.len() == 0 {
    } else {
        assert((first + second).drop_last() =~= first + second.drop_last());
        lemma_tile_over_concat(base, first, second.drop_last(), x, y);
    }
}

/// Last writer wins: where change `j` targets a cell and no later change
/// does, the cell holds what change `j` painted, whatever came before.
pub proof fn lemma_last_writer_wins(changes: Seq<PixelChange>, j: int, x: int, y: int)
    requires
        0 <= j < changes.len(),
        targets(changes[j], x, y),
        forall|k: int| j < k < changes.len() ==> !targets(#[trigger] changes[k], x, y),
    ensures
        tile_after(changes, x, y) == painted(changes[j]),
    decreases changes.len(),
{
    if j < changes.len() - 1 {
        lemma_last_writer_wins(changes.drop_last(), j, x, y);
    }
}

/// A cell that no change targets stays blank.
pub proof fn lemma_untouched_stays_blank(changes: Seq<PixelChange>, x: int, y: int)
    requires
        forall|k: int| 0 <= k < changes.len() ==> !targets(#[trigger] changes[k], x, y),
    ensures
        tile_after(changes, x, y) == Tile::blank(),
    decreases changes.len(),
{
    if changes.len() > 0 {
        lemma_untouched_stays_blank(changes.drop_last(), x, y);
    }
}

/// Replay is a function of the moves' changes and their order alone: two
/// logs that hold the same changes give the same board.
pub proof fn lemma_replay_deterministic(first: Seq<GameMove>, second: Seq<GameMove>)
    requires
        move_views(first) == move_views(second),
    ensures
        replay(move_views(first)) == replay(move_views(second)),
{
}

/// Square grids with the same serialised content are the same grid.
pub proof fn lemma_grid_bytes_injective(first: Seq<Seq<Tile>>, second: Seq<Seq<Tile>>)
    requires
        is_square(first),
        is_square(second),
        grid_bytes(first) == grid_bytes(second),
    ensures
        first == second,
{
    assert forall|x: int, y: int| 0 <= x < BOARD_SIZE && 0 <= y < BOARD_SIZE implies first[x][y]
        == second[x][y] by {
        let k = x * BOARD_SIZE + y;
        let a = first[x][y];
        let b = second[x][y];
        assert forall|j: int| 0 <= j < 6 implies tile_byte(a, j) == tile_byte(b, j) by {
            let i = 6 * k + j;
            assert(grid_bytes(first)[i] == tile_byte(a, j));
        }
        assert(tile_byte(a, 0) == tile_byte(b, 0));
        assert(tile_byte(a, 1) == tile_byte(b, 1));
        assert(tile_byte(a, 2) == tile_byte(b, 2));
        assert(tile_byte(a, 3) == tile_byte(b, 3));
        assert(tile_byte(a, 4) == tile_byte(b, 4));
        assert(tile_byte(a, 5) == tile_byte(b, 5));
    }
    assert(first =~~= second);
}

} // verus!
