use vstd::prelude::*;

verus! {

/// Side length of the board, in tiles. Shared by the move codec, the replay
/// and the rasteriser.
pub const BOARD_SIZE: usize = 50;

/// Number of pattern masks in each resolution class.
pub const GRAPHIC_OPTIONS: usize = 17;

/// An RGB colour, one byte per channel.
#[derive(Clone, Copy, Debug, PartialEq, Eq, Structural, Hash)]
pub struct Color {
    pub r: u8,
    pub g: u8,
    pub b: u8,
}

/// One cell of the board. A tile without a colour has never been painted.
#[derive(Clone, Copy, Debug, PartialEq, Eq, Structural, Hash)]
pub struct Tile {
    pub color: Option<Color>,
    pub graphic_option: Option<u8>,
}

impl Tile {
    /// The tile that no move has touched.
    pub open spec fn blank() -> Tile {
        Tile { color: None, graphic_option: None }
    }

    pub fn empty() -> (t: Tile)
        ensures
            t == Tile::blank(),
    {
        Tile { color: None, graphic_option: None }
    }
}

} // verus!
