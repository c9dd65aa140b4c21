use vstd::prelude::*;
use vstd::string::StringExecFns;
use crate::board::{grid_bytes, is_square, Board, BoardInput};
use crate::draw::{canvas_samples, draw_board};
use crate::masks::{named_size, BoardSize, MaskStore};
use crate::raster::{png_encoding, Raster};
use crate::render_cache::{looked_up, stored, touched, Entries, RenderCache};
use crate::tile::{Tile, BOARD_SIZE};

verus! {

/// What a rendering request asks for: a board payload and the name of a
/// size class.
#[derive(Clone, Debug, PartialEq, Eq, Hash)]
pub struct BoardToPngInput {
    pub board: BoardInput,
    pub board_size: String,
}

/// Why a board was not rendered.
#[derive(Clone, Copy, Debug, PartialEq, Eq, Structural)]
pub enum RenderError {
    /// The size class is neither `Small` nor `Large`.
    InvalidBoardSize,
    /// The payload does not have the shape of the board.
    InvalidBoard,
    /// The pattern masks have not been loaded.
    MasksNotInitialized,
    /// The image could not be compressed.
    Encoding,
}

/// The text of the standard base64 encoding, with padding, that the
/// `base64` crate gives for the bytes.
pub uninterp spec fn base64_text(bytes: Seq<u8>) -> Seq<char>;

/// `base64::encode`: the standard encoding of the bytes.
#[allow(deprecated)]
#[verifier::external_body]
fn base64_encode(bytes: &Vec<u8>) -> (text: String)
    ensures
        text@ == base64_text(bytes@),
{
    base64::encode(bytes)
}

/// The first hash value of FNV-1a, 64 bits wide.
pub const FNV_OFFSET: u64 = 0xcbf2_9ce4_8422_2325;

/// The multiplier of FNV-1a, 64 bits wide.
pub const FNV_PRIME: u64 = 0x0000_0100_0000_01b3;

/// The 64-bit FNV-1a hash of the bytes.
pub open spec fn fnv1a(bytes: Seq<u8>) -> u64
    decreases bytes.len(),
{
    if bytes.len() == 0 {
        FNV_OFFSET
    } else {
        vstd::wrapping::u64_specs::wrapping_mul(
            fnv1a(bytes.drop_last()) ^ (bytes.last() as u64),
            FNV_PRIME,
        )
    }
}

/// The byte that stands for a size class in a cache key.
pub open spec fn size_byte(size: BoardSize) -> u8 {
    match size {
        BoardSize::Small => 0,
        BoardSize::Large => 1,
    }
}

/// What a cache key is a hash of: the serialised content of the board,
/// then the size class.
pub open spec fn key_material(grid: Seq<Seq<Tile>>, size: BoardSize) -> Seq<u8> {
    grid_bytes(grid).push(size_byte(size))
}

/// The key under which the rendering of a board in a size class is cached.
pub open spec fn cache_key(grid: Seq<Seq<Tile>>, size: BoardSize) -> u64 {
    fnv1a(key_material(grid, size))
}

/// The data URI of the rendered board, or `None` where the image cannot be
/// compressed.
pub open spec fn rendering(grid: Seq<Seq<Tile>>, masks: Seq<Raster>, size: BoardSize) -> Option<
    Seq<char>,
> {
    match png_encoding(
        canvas_samples(grid, masks, size.spec_tile_size() as int),
        size.spec_pixels() as nat,
        size.spec_pixels() as nat,
    ) {
        Some(png) => Some("data:image/png;base64,"@ + base64_text(png)),
        None => None,
    }
}

/// What rendering without a cache returns.
pub open spec fn fresh_outcome(store: MaskStore, input: BoardToPngInput) -> Result<
    Seq<char>,
    RenderError,
> {
    match named_size(input.board_size@) {
        None => Err(RenderError::InvalidBoardSize),
        Some(size) => if !is_square(input.board@) {
            Err(RenderError::InvalidBoard)
        } else {
            match store.masks(size) {
                None => Err(RenderError::MasksNotInitialized),
                Some(masks) => match rendering(input.board@, masks, size) {
                    None => Err(RenderError::Encoding),
                    Some(uri) => Ok(uri),
                },
            }
        },
    }
}

/// What a rendering request returns and what it leaves in the cache: a
/// request that is not well formed fails and leaves the cache alone; a hit
/// returns the cached text and makes its entry the most recent; a miss
/// renders, and stores what it rendered unless rendering failed.
pub open spec fn cached_outcome(
    entries: Entries,
    capacity: nat,
    store: MaskStore,
    input: BoardToPngInput,
) -> (Result<Seq<char>, RenderError>, Entries) {
    match named_size(input.board_size@) {
        None => (Err(RenderError::InvalidBoardSize), entries),
        Some(size) => if !is_square(input.board@) {
            (Err(RenderError::InvalidBoard), entries)
        } else {
            let key = cache_key(input.board@, size);
            match looked_up(entries, key) {
                Some(text) => (Ok(text), touched(entries, key)),
                None => match fresh_outcome(store, input) {
                    Ok(uri) => (Ok(uri), stored(entries, capacity, key, uri)),
                    Err(e) => (Err(e), entries),
                },
            }
        },
    }
}

/// Hashes bytes with FNV-1a.
pub fn hash_bytes(bytes: &Vec<u8>) -> (h: u64)
    ensures
        h == fnv1a(bytes@),
{
    let mut h: u64 = FNV_OFFSET;
    let mut i: usize = 0;
    while i < bytes.len()
        invariant
            i <= bytes@.len(),
            h == fnv1a(bytes@.take(i as int)),
        decreases bytes@.len() - i,
    {
        proof {
            let next = bytes@.take(i as int + 1);
            assert(next.drop_last() =~= bytes@.take(i as int));
        }
        h = (h ^ (bytes[i] as u64)).wrapping_mul(FNV_PRIME);
        i += 1;
    }
    proof {
        assert(bytes@.take(bytes@.len() as int) =~= bytes@);
    }
    h
}

/// The key under which the rendering of the board in the size class is
/// cached.
pub fn hash_key(board: &Board, size: BoardSize) -> (key: u64)
    requires
        board.wf(),
    ensures
        key == cache_key(board@, size),
{
    let mut material = board.to_bytes();
    material.push(
        match size {
            BoardSize::Small => 0,
            BoardSize::Large => 1,
        },
    );
    hash_bytes(&material)
}

/// Wraps the bytes of a PNG file as a data URI.
pub fn data_uri(png: &Vec<u8>) -> (uri: String)
    ensures
        uri@ == "data:image/png;base64,"@ + base64_text(png@),
{
    let payload = base64_encode(png);
    let prefix: String = "data:image/png;base64,".to_owned();
    prefix.concat(payload.as_str())
}

/// Renders the board in the size class, without a cache.
pub fn render(board: &Board, masks: &Vec<Raster>, size: BoardSize) -> (r: Result<
    String,
    RenderError,
>)
    requires
        board.wf(),
        crate::draw::masks_fit(masks@, size.spec_pixels() as int),
    ensures
        match r {
            Ok(uri) => rendering(board@, masks@, size) == Some(uri@),
            Err(e) => e == RenderError::Encoding && rendering(board@, masks@, size) is None,
        },
{
    let tile_size = size.tile_size();
    proof {
        let side: int = BOARD_SIZE * tile_size;
        assert(4 * side * side <= 0xffff_ffff) by (nonlinear_arith)
            requires
                side == 600 || side == 2000,
        ;
    }
    let canvas = draw_board(board, masks, tile_size);
    match canvas.encode_png() {
        Ok(png) => Ok(data_uri(&png)),
        Err(_) => Err(RenderError::Encoding),
    }
}

/// Answers a rendering request: from the cache where it holds the
/// rendering of the same board in the same size class, else by rendering
/// and storing the result.
pub fn board_to_png(cache: &mut RenderCache, store: &MaskStore, input: &BoardToPngInput) -> (r:
    Result<String, RenderError>)
    requires
        old(cache).wf(),
        store.wf(),
    ensures
        final(cache).wf(),
        final(cache).spec_capacity() == old(cache).spec_capacity(),
        final(cache)@ == cached_outcome(
            old(cache)@,
            old(cache).spec_capacity(),
            *store,
            *input,
        ).1,
        match r {
            Ok(uri) => cached_outcome(old(cache)@, old(cache).spec_capacity(), *store, *input).0
                == Ok::<Seq<char>, RenderError>(uri@),
            Err(e) => cached_outcome(old(cache)@, old(cache).spec_capacity(), *store, *input).0
                == Err::<Seq<char>, RenderError>(e),
        },
{
    let size = match BoardSize::parse(input.board_size.as_str()) {
        Some(size) => size,
        None => {
            return Err(RenderError::InvalidBoardSize);
        },
    };
    let board = match Board::from_board_input(&input.board) {
        Ok(board) => board,
        Err(_) => {
            return Err(RenderError::InvalidBoard);
        },
    };
    let key = hash_key(&board, size);
    if let Some(data_uri) = cache.get(key) {
        return Ok(data_uri);
    }
    let masks = match store.get(size) {
        Some(masks) => masks,
        None => {
            return Err(RenderError::MasksNotInitialized);
        },
    };
    proof {
        store.lemma_masks_fit(size);
    }
    let data_uri = render(&board, masks, size)?;
    cache.insert(key, data_uri.clone());
    Ok(data_uri)
}

/// The cache is an optimisation only: where it holds nothing under the
/// request's key but what rendering afresh returns, the request is answered
/// as if there were no cache.
pub proof fn lemma_cache_is_transparent(
    entries: Entries,
    capacity: nat,
    store: MaskStore,
    input: BoardToPngInput,
)
    requires
        named_size(input.board_size@) matches Some(size) ==> (looked_up(
            entries,
            cache_key(input.board@, size),
        ) matches Some(text) ==> fresh_outcome(store, input) == Ok::<Seq<char>, RenderError>(text)),
    ensures
        cached_outcome(entries, capacity, store, input).0 == fresh_outcome(store, input),
{
}

/// Rendering is a function of the board, the masks and the size class: the
/// same request on the same masks gives the same text, whatever the time
/// or place.
pub proof fn lemma_render_deterministic(
    first: BoardToPngInput,
    second: BoardToPngInput,
    store: MaskStore,
)
    requires
        first.board@ == second.board@,
        first.board_size@ == second.board_size@,
    ensures
        fresh_outcome(store, first) == fresh_outcome(store, second),
{
}

} // verus!
