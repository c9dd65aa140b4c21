use vstd::prelude::*;
use crate::blend::{blend, blend_channel, lemma_blend_ends, lemma_blend_near_exact};
use crate::board::Board;
use crate::raster::{
    lemma_samples_of, lemma_with_pixel, pixel_at, raster_samples, raster_size, samples_of, Pixel,
    Raster,
};
use crate::tile::{Tile, BOARD_SIZE, GRAPHIC_OPTIONS};

verus! {

/// The highest pattern that stencils its mask's alpha onto the canvas.
pub const LAST_STENCIL: u8 = 16;

/// The highest pattern that blends its mask's own colours with the fill.
pub const LAST_BLEND: u8 = 33;

/// The pattern that fills the whole tile.
pub const SOLID_FILL: u8 = 34;

/// The background of the canvas: opaque white.
pub open spec fn white() -> Pixel {
    Pixel { r: 255, g: 255, b: 255, a: 255 }
}

/// The mask that a pattern draws with. Patterns 17 to 33 use the masks of
/// patterns 0 to 16 again.
pub open spec fn mask_index(graphic_option: u8) -> int {
    graphic_option as int % 17
}

/// What a tile makes of one pixel of its footprint, given the pixel of its
/// mask at the same place and the pixel that the canvas holds there.
pub open spec fn paint(tile: Tile, mask: Pixel, under: Pixel) -> Pixel {
    match (tile.color, tile.graphic_option) {
        (Some(c), Some(g)) => {
            if g <= LAST_STENCIL {
                if mask.a != 0 {
                    Pixel { r: c.r, g: c.g, b: c.b, a: mask.a }
                } else {
                    under
                }
            } else if g <= LAST_BLEND {
                if mask.a != 0 {
                    Pixel {
                        r: blend_channel(mask.r, mask.a, c.r),
                        g: blend_channel(mask.g, mask.a, c.g),
                        b: blend_channel(mask.b, mask.a, c.b),
                        a: 255,
                    }
                } else {
                    Pixel { r: c.r, g: c.g, b: c.b, a: 255 }
                }
            } else if g == SOLID_FILL {
                Pixel { r: c.r, g: c.g, b: c.b, a: 255 }
            } else {
                under
            }
        },
        _ => under,
    }
}

/// The pixel at (`px`, `py`) of the mask that the tile draws with. It
/// matters only for patterns up to `LAST_BLEND`.
pub open spec fn mask_pixel(masks: Seq<Raster>, tile: Tile, px: int, py: int) -> Pixel {
    match tile.graphic_option {
        Some(g) => masks[mask_index(g)].spec_pixel(px, py),
        None => white(),
    }
}

/// The pixel (`px`, `py`) lies in the footprint of the tile at (`x`, `y`).
pub open spec fn in_tile(tile_size: int, x: int, y: int, px: int, py: int) -> bool {
    &&& x * tile_size <= px < x * tile_size + tile_size
    &&& y * tile_size <= py < y * tile_size + tile_size
}

/// The pixel at (`px`, `py`) of the rendered board: the tile whose footprint
/// holds it, painted over white.
pub open spec fn board_pixel(
    grid: Seq<Seq<Tile>>,
    masks: Seq<Raster>,
    tile_size: int,
    px: int,
    py: int,
) -> Pixel {
    let tile = grid[px / tile_size][py / tile_size];
    paint(tile, mask_pixel(masks, tile, px, py), white())
}

/// The sample buffer of the rendered board.
pub open spec fn canvas_samples(grid: Seq<Seq<Tile>>, masks: Seq<Raster>, tile_size: int) -> Seq<u8> {
    samples_of(
        (BOARD_SIZE * tile_size) as nat,
        |px: int, py: int| board_pixel(grid, masks, tile_size, px, py),
    )
}

/// The masks can serve a canvas of `side` by `side` pixels: there is one
/// for each pattern and each of these is at least as large as the canvas.
pub open spec fn masks_fit(masks: Seq<Raster>, side: int) -> bool {
    &&& masks.len() >= GRAPHIC_OPTIONS
    &&& forall|m: int|
        0 <= m < GRAPHIC_OPTIONS ==> (#[trigger] masks[m]).spec_width() >= side
            && masks[m].spec_height() >= side
}

/// What the tile paints at one pixel of its footprint, or `None` where it
/// leaves the canvas as it is.
pub fn paint_pixel(tile: Tile, mask: Pixel) -> (r: Option<Pixel>)
    ensures
        forall|under: Pixel|
            #[trigger] paint(tile, mask, under) == match r {
                Some(p) => p,
                None => under,
            },
{
    match (tile.color, tile.graphic_option) {
        (Some(c), Some(g)) => {
            if g <= LAST_STENCIL {
                if mask.a != 0 {
                    Some(Pixel { r: c.r, g: c.g, b: c.b, a: mask.a })
                } else {
                    None
                }
            } else if g <= LAST_BLEND {
                if mask.a != 0 {
                    Some(
                        Pixel {
                            r: blend(mask.r, mask.a, c.r),
                            g: blend(mask.g, mask.a, c.g),
                            b: blend(mask.b, mask.a, c.b),
                            a: 255,
                        },
                    )
                } else {
                    Some(Pixel { r: c.r, g: c.g, b: c.b, a: 255 })
                }
            } else if g == SOLID_FILL {
                Some(Pixel { r: c.r, g: c.g, b: c.b, a: 255 })
            } else {
                None
            }
        },
        _ => None,
    }
}

/// A pixel lies in the footprint of the tile whose coordinates are the
/// pixel's own, divided by the tile size, and in no other.
pub proof fn lemma_footprint(tile_size: int, x: int, px: int)
    requires
        tile_size > 0,
    ensures
        (x * tile_size <= px < x * tile_size + tile_size) <==> px / tile_size == x,
{
    vstd::arithmetic::div_mod::lemma_fundamental_div_mod(px, tile_size);
    if x * tile_size <= px < x * tile_size + tile_size {
        vstd::arithmetic::div_mod::lemma_fundamental_div_mod_converse(
            px,
            tile_size,
            x,
            px - x * tile_size,
        );
    }
    if px / tile_size == x {
        assert(tile_size * x == x * tile_size) by (nonlinear_arith);
    }
}

/// Whether the inner loops of `draw_tile` have reached the pixel.
spec fn tile_progress(x0: int, y0: int, i: int, j: int, px: int, py: int) -> bool {
    px - x0 < i || (px - x0 == i && py - y0 < j)
}

/// Paints the footprint of the tile at (`x`, `y`) onto the canvas and
/// leaves every other pixel as it is.
pub fn draw_tile(
    canvas: &mut Raster,
    mask_images: &Vec<Raster>,
    tile: Tile,
    x: u32,
    y: u32,
    tile_size: u32,
)
    requires
        x < BOARD_SIZE,
        y < BOARD_SIZE,
        BOARD_SIZE * tile_size <= u32::MAX,
        raster_size(*old(canvas)) == ((BOARD_SIZE * tile_size) as nat, (BOARD_SIZE * tile_size) as nat),
        old(canvas).covers(),
        masks_fit(mask_images@, BOARD_SIZE * tile_size),
    ensures
        raster_size(*final(canvas)) == raster_size(*old(canvas)),
        raster_samples(*final(canvas)).len() == raster_samples(*old(canvas)).len(),
        forall|px: int, py: int|
            0 <= px < BOARD_SIZE * tile_size && 0 <= py < BOARD_SIZE * tile_size
                ==> #[trigger] final(canvas).spec_pixel(px, py) == if in_tile(
                tile_size as int,
                x as int,
                y as int,
                px,
                py,
            ) {
                paint(tile, mask_pixel(mask_images@, tile, px, py), old(canvas).spec_pixel(px, py))
            } else {
                old(canvas).spec_pixel(px, py)
            },
{
    let g: u8 = match (tile.color, tile.graphic_option) {
        (Some(_), Some(g)) => g,
        _ => {
            return ;
        },
    };
    if g > SOLID_FILL {
        return ;
    }
    let uses_mask: bool = g <= LAST_BLEND;
    let mask_at: usize = (g % 17) as usize;
    let ghost start = *canvas;
    let ghost side: int = BOARD_SIZE * tile_size;
    let ghost ts: int = tile_size as int;
    assert(x * tile_size + tile_size <= BOARD_SIZE * tile_size && 0 <= x * tile_size)
        by (nonlinear_arith)
        requires
            0 <= x < BOARD_SIZE,
            0 <= tile_size,
    ;
    assert(y * tile_size + tile_size <= BOARD_SIZE * tile_size && 0 <= y * tile_size)
        by (nonlinear_arith)
        requires
            0 <= y < BOARD_SIZE,
            0 <= tile_size,
    ;
    let x0: u32 = x * tile_size;
    let y0: u32 = y * tile_size;
    let mut i: u32 = 0;
    while i < tile_size
        invariant
            i <= tile_size,
            side == BOARD_SIZE * tile_size,
            ts == tile_size,
            x0 == x * tile_size,
            y0 == y * tile_size,
            x0 + tile_size <= side,
            y0 + tile_size <= side,
            side <= u32::MAX,
            tile.graphic_option == Some(g),
            tile.color is Some,
            g <= SOLID_FILL,
            uses_mask == (g <= LAST_BLEND),
            mask_at == mask_index(g),
            masks_fit(mask_images@, side),
            raster_size(*canvas) == (side as nat, side as nat),
            raster_size(start) == (side as nat, side as nat),
            raster_samples(*canvas).len() == raster_samples(start).len(),
            start.covers(),
            forall|px: int, py: int|
                0 <= px < side && 0 <= py < side ==> #[trigger] canvas.spec_pixel(px, py)
                    == if in_tile(ts, x as int, y as int, px, py) && tile_progress(
                    x0 as int,
                    y0 as int,
                    i as int,
                    0,
                    px,
                    py,
                ) {
                    paint(tile, mask_pixel(mask_images@, tile, px, py), start.spec_pixel(px, py))
                } else {
                    start.spec_pixel(px, py)
                },
        decreases tile_size - i,
    {
        let mut j: u32 = 0;
        while j < tile_size
            invariant
                i < tile_size,
                j <= tile_size,
                side == BOARD_SIZE * tile_size,
                ts == tile_size,
                x0 == x * tile_size,
                y0 == y * tile_size,
                x0 + tile_size <= side,
                y0 + tile_size <= side,
                side <= u32::MAX,
                tile.graphic_option == Some(g),
                tile.color is Some,
                g <= SOLID_FILL,
                uses_mask == (g <= LAST_BLEND),
                mask_at == mask_index(g),
                masks_fit(mask_images@, side),
                raster_size(*canvas) == (side as nat, side as nat),
                raster_size(start) == (side as nat, side as nat),
                raster_samples(*canvas).len() == raster_samples(start).len(),
                start.covers(),
                forall|px: int, py: int|
                    0 <= px < side && 0 <= py < side ==> #[trigger] canvas.spec_pixel(px, py)
                        == if in_tile(ts, x as int, y as int, px, py) && tile_progress(
                        x0 as int,
                        y0 as int,
                        i as int,
                        j as int,
                        px,
                        py,
                    ) {
                        paint(
                            tile,
                            mask_pixel(mask_images@, tile, px, py),
                            start.spec_pixel(px, py),
                        )
                    } else {
                        start.spec_pixel(px, py)
                    },
            decreases tile_size - j,
        {
            let px: u32 = x0 + i;
            let py: u32 = y0 + j;
            let ghost before = *canvas;
            let ghost under = before.spec_pixel(px as int, py as int);
            let fresh: Option<Pixel> = if uses_mask {
                let mask = &mask_images[mask_at];
                let mask_here = mask.pixel_unchecked(px, py);
                paint_pixel(tile, mask_here)
            } else {
                paint_pixel(tile, Pixel { r: 0, g: 0, b: 0, a: 0 })
            };
            assert(paint(
                tile,
                mask_pixel(mask_images@, tile, px as int, py as int),
                under,
            ) == match fresh {
                Some(p) => p,
                None => under,
            }) by {
                if !uses_mask {
                    assert(paint(tile, Pixel { r: 0, g: 0, b: 0, a: 0 }, under) == match fresh {
                        Some(p) => p,
                        None => under,
                    });
                }
            }
            match fresh {
                Some(p) => {
                    canvas.put_unchecked(px, py, p);
                    proof {
                        lemma_with_pixel(
                            raster_samples(before),
                            side as nat,
                            side as nat,
                            px as int,
                            py as int,
                            p,
                        );
                    }
                },
                None => {},
            }
            proof {
                assert forall|qx: int, qy: int| 0 <= qx < side && 0 <= qy < side implies #[trigger] canvas.spec_pixel(
                    qx,
                    qy,
                ) == if in_tile(ts, x as int, y as int, qx, qy) && tile_progress(
                    x0 as int,
                    y0 as int,
                    i as int,
                    j as int + 1,
                    qx,
                    qy,
                ) {
                    paint(tile, mask_pixel(mask_images@, tile, qx, qy), start.spec_pixel(qx, qy))
                } else {
                    start.spec_pixel(qx, qy)
                } by {
                    if qx == px && qy == py {
                    } else {
                        assert(canvas.spec_pixel(qx, qy) == before.spec_pixel(qx, qy));
                    }
                }
            }
            j += 1;
        }
        proof {
            assert forall|qx: int, qy: int| 0 <= qx < side && 0 <= qy < side implies #[trigger] canvas.spec_pixel(
                qx,
                qy,
            ) == if in_tile(ts, x as int, y as int, qx, qy) && tile_progress(
                x0 as int,
                y0 as int,
                i as int + 1,
                0,
                qx,
                qy,
            ) {
                paint(tile, mask_pixel(mask_images@, tile, qx, qy), start.spec_pixel(qx, qy))
            } else {
                start.spec_pixel(qx, qy)
            } by {}
        }
        i += 1;
    }
}

/// Whether the loops of `draw_board` have drawn the tile that holds the
/// pixel.
spec fn board_progress(tile_size: int, x: int, y: int, px: int, py: int) -> bool {
    px < x * tile_size || (px < x * tile_size + tile_size && py < y * tile_size)
}

/// A canvas of `side` by `side` pixels, all of them opaque white.
pub fn white_canvas(side: u32) -> (canvas: Raster)
    requires
        4 * side * side <= usize::MAX,
    ensures
        raster_size(canvas) == (side as nat, side as nat),
        raster_samples(canvas).len() == 4 * side * side,
        forall|px: int, py: int|
            0 <= px < side && 0 <= py < side ==> #[trigger] canvas.spec_pixel(px, py) == white(),
{
    assert(4 * side <= 4 * side * side || side == 0) by (nonlinear_arith)
        requires
            side >= 0,
    ;
    let mut canvas = Raster::zeroed(side, side);
    let mut py: u32 = 0;
    while py < side
        invariant
            py <= side,
            raster_size(canvas) == (side as nat, side as nat),
            raster_samples(canvas).len() == 4 * side * side,
            forall|qx: int, qy: int|
                0 <= qx < side && 0 <= qy < py ==> #[trigger] canvas.spec_pixel(qx, qy) == white(),
        decreases side - py,
    {
        let mut px: u32 = 0;
        while px < side
            invariant
                py < side,
                px <= side,
                raster_size(canvas) == (side as nat, side as nat),
                raster_samples(canvas).len() == 4 * side * side,
                forall|qx: int, qy: int|
                    0 <= qx < side && 0 <= qy < side && (qy < py || (qy == py && qx < px))
                        ==> #[trigger] canvas.spec_pixel(qx, qy) == white(),
            decreases side - px,
        {
            let ghost before = canvas;
            canvas.put_unchecked(px, py, Pixel { r: 255, g: 255, b: 255, a: 255 });
            proof {
                lemma_with_pixel(
                    raster_samples(before),
                    side as nat,
                    side as nat,
                    px as int,
                    py as int,
                    white(),
                );
                assert forall|qx: int, qy: int|
                    0 <= qx < side && 0 <= qy < side && (qy < py || (qy == py && qx < px + 1))
                    implies #[trigger] canvas.spec_pixel(qx, qy) == white() by {
                    if qx == px && qy == py {
                    } else {
                        assert(canvas.spec_pixel(qx, qy) == before.spec_pixel(qx, qy));
                    }
                }
            }
            px += 1;
        }
        py += 1;
    }
    canvas
}

/// Renders the board: a white canvas of `BOARD_SIZE * tile_size` pixels a
/// side, on which every tile that has a colour and a pattern paints its
/// footprint through its mask.
pub fn draw_board(board: &Board, mask_images: &Vec<Raster>, tile_size: u32) -> (canvas: Raster)
    requires
        board.wf(),
        BOARD_SIZE * tile_size <= u32::MAX,
        4 * (BOARD_SIZE * tile_size) * (BOARD_SIZE * tile_size) <= usize::MAX,
        masks_fit(mask_images@, BOARD_SIZE * tile_size),
    ensures
        raster_size(canvas) == ((BOARD_SIZE * tile_size) as nat, (BOARD_SIZE * tile_size) as nat),
        raster_samples(canvas) == canvas_samples(board@, mask_images@, tile_size as int),
        forall|px: int, py: int|
            0 <= px < BOARD_SIZE * tile_size && 0 <= py < BOARD_SIZE * tile_size
                ==> #[trigger] canvas.spec_pixel(px, py) == board_pixel(
                board@,
                mask_images@,
                tile_size as int,
                px,
                py,
            ),
{
    let side: u32 = (BOARD_SIZE as u32) * tile_size;
    let ghost ts: int = tile_size as int;
    let mut canvas = white_canvas(side);
    let mut x: u32 = 0;
    while x < BOARD_SIZE as u32
        invariant
            x <= BOARD_SIZE,
            board.wf(),
            ts == tile_size,
            side == BOARD_SIZE * tile_size,
            masks_fit(mask_images@, side as int),
            raster_size(canvas) == (side as nat, side as nat),
            raster_samples(canvas).len() == 4 * side * side,
            forall|px: int, py: int|
                0 <= px < side && 0 <= py < side ==> #[trigger] canvas.spec_pixel(px, py)
                    == if board_progress(ts, x as int, 0, px, py) {
                    board_pixel(board@, mask_images@, ts, px, py)
                } else {
                    white()
                },
        decreases BOARD_SIZE - x,
    {
        let mut y: u32 = 0;
        while y < BOARD_SIZE as u32
            invariant
                x < BOARD_SIZE,
                y <= BOARD_SIZE,
                board.wf(),
                ts == tile_size,
                side == BOARD_SIZE * tile_size,
                masks_fit(mask_images@, side as int),
                raster_size(canvas) == (side as nat, side as nat),
                raster_samples(canvas).len() == 4 * side * side,
                forall|px: int, py: int|
                    0 <= px < side && 0 <= py < side ==> #[trigger] canvas.spec_pixel(px, py)
                        == if board_progress(ts, x as int, y as int, px, py) {
                        board_pixel(board@, mask_images@, ts, px, py)
                    } else {
                        white()
                    },
            decreases BOARD_SIZE - y,
        {
            let tile = match board.get(x as usize, y as usize) {
                Some(tile) => tile,
                None => Tile { color: None, graphic_option: None },
            };
            draw_tile(&mut canvas, mask_images, tile, x, y, tile_size);
            proof {
                assert forall|px: int, py: int|
                    0 <= px < side && 0 <= py < side implies #[trigger] canvas.spec_pixel(px, py)
                    == if board_progress(ts, x as int, y as int + 1, px, py) {
                    board_pixel(board@, mask_images@, ts, px, py)
                } else {
                    white()
                } by {
                    lemma_footprint(ts, x as int, px);
                    lemma_footprint(ts, y as int, py);
                    assert((y + 1) * ts == y * ts + ts) by (nonlinear_arith);
                }
            }
            y += 1;
        }
        proof {
            assert forall|px: int, py: int|
                0 <= px < side && 0 <= py < side implies #[trigger] canvas.spec_pixel(px, py)
                == if board_progress(ts, x as int + 1, 0, px, py) {
                board_pixel(board@, mask_images@, ts, px, py)
            } else {
                white()
            } by {
                assert((x + 1) * ts == x * ts + ts) by (nonlinear_arith);
                assert(0 <= x * ts) by (nonlinear_arith)
                    requires
                        0 <= x,
                        0 <= ts,
                ;
            }
        }
        x += 1;
    }
    proof {
        let pixel = |px: int, py: int| board_pixel(board@, mask_images@, ts, px, py);
        assert forall|px: int, py: int| 0 <= px < side && 0 <= py < side implies #[trigger] pixel_at(
            raster_samples(canvas),
            side as nat,
            px,
            py,
        ) == pixel(px, py) by {
            assert(canvas.spec_pixel(px, py) == board_pixel(board@, mask_images@, ts, px, py));
        }
        lemma_samples_of(raster_samples(canvas), side as nat, pixel);
    }
    canvas
}

/// The four ways of a tile with a colour, on one pixel of its footprint: a
/// stencil on an opaque mask pixel paints the tile's colour, opaque; a
/// blend on an opaque mask pixel paints the mask's own colour, opaque; the
/// solid fill paints the tile's colour whatever the mask; any pattern above
/// it leaves the canvas as it is.
pub proof fn lemma_paint_modes(color: crate::tile::Color, g: u8, mask: Pixel, under: Pixel)
    ensures
        g <= LAST_STENCIL && mask.a == 255 ==> paint(
            Tile { color: Some(color), graphic_option: Some(g) },
            mask,
            under,
        ) == (Pixel { r: color.r, g: color.g, b: color.b, a: 255 }),
        LAST_STENCIL < g <= LAST_BLEND && mask.a == 255 ==> paint(
            Tile { color: Some(color), graphic_option: Some(g) },
            mask,
            under,
        ) == (Pixel { r: mask.r, g: mask.g, b: mask.b, a: 255 }),
        g == SOLID_FILL ==> paint(
            Tile { color: Some(color), graphic_option: Some(g) },
            mask,
            under,
        ) == (Pixel { r: color.r, g: color.g, b: color.b, a: 255 }),
        g > SOLID_FILL ==> paint(Tile { color: Some(color), graphic_option: Some(g) }, mask, under)
            == under,
{
    lemma_blend_ends(mask.r, color.r);
    lemma_blend_ends(mask.g, color.g);
    lemma_blend_ends(mask.b, color.b);
}

/// The exact linear blend of one channel, rounded down.
pub open spec fn exact_blend(mask: u8, alpha: u8, fill: u8) -> int {
    (mask * alpha + fill * (255 - alpha)) / 255
}

/// The stencil rule: in the footprint of a tile with a colour and a pattern
/// from 0 to 16, a pixel shows the tile's colour at the alpha of the
/// pattern's mask there, whatever the mask's own colour, and stays white
/// where the mask is clear.
pub proof fn lemma_stencil_rule(
    grid: Seq<Seq<Tile>>,
    masks: Seq<Raster>,
    tile_size: int,
    x: int,
    y: int,
    px: int,
    py: int,
)
    requires
        tile_size > 0,
        in_tile(tile_size, x, y, px, py),
        grid[x][y].color is Some,
        grid[x][y].graphic_option matches Some(g) && g <= LAST_STENCIL,
    ensures
        ({
            let c = grid[x][y].color.unwrap();
            let g = grid[x][y].graphic_option.unwrap();
            let a = masks[g as int].spec_pixel(px, py).a;
            board_pixel(grid, masks, tile_size, px, py) == if a != 0 {
                Pixel { r: c.r, g: c.g, b: c.b, a }
            } else {
                white()
            }
        }),
{
    lemma_footprint(tile_size, x, px);
    lemma_footprint(tile_size, y, py);
}

/// The blend rule: in the footprint of a tile with a colour and a pattern
/// from 17 to 33, a pixel is opaque; it shows the fill where the mask of
/// pattern `g - 17` is clear, and elsewhere, in each channel, the linear
/// blend of the mask's colour and the fill, the mask weighted by its alpha
/// over 255, rounded down or one below that.
pub proof fn lemma_blend_rule(
    grid: Seq<Seq<Tile>>,
    masks: Seq<Raster>,
    tile_size: int,
    x: int,
    y: int,
    px: int,
    py: int,
)
    requires
        tile_size > 0,
        in_tile(tile_size, x, y, px, py),
        grid[x][y].color is Some,
        grid[x][y].graphic_option matches Some(g) && LAST_STENCIL < g <= LAST_BLEND,
    ensures
        ({
            let c = grid[x][y].color.unwrap();
            let g = grid[x][y].graphic_option.unwrap();
            let m = masks[g as int % 17].spec_pixel(px, py);
            let p = board_pixel(grid, masks, tile_size, px, py);
            &&& p.a == 255
            &&& m.a == 0 ==> p == (Pixel { r: c.r, g: c.g, b: c.b, a: 255 })
            &&& m.a != 0 ==> {
                &&& exact_blend(m.r, m.a, c.r) - 1 <= p.r <= exact_blend(m.r, m.a, c.r)
                &&& exact_blend(m.g, m.a, c.g) - 1 <= p.g <= exact_blend(m.g, m.a, c.g)
                &&& exact_blend(m.b, m.a, c.b) - 1 <= p.b <= exact_blend(m.b, m.a, c.b)
            }
        }),
{
    lemma_footprint(tile_size, x, px);
    lemma_footprint(tile_size, y, py);
    let c = grid[x][y].color.unwrap();
    let g = grid[x][y].graphic_option.unwrap();
    let m = masks[g as int % 17].spec_pixel(px, py);
    lemma_blend_near_exact(m.r, m.a, c.r);
    lemma_blend_near_exact(m.g, m.a, c.g);
    lemma_blend_near_exact(m.b, m.a, c.b);
}

/// The solid fill: in the footprint of a tile with a colour and pattern 34,
/// every pixel shows the tile's colour, opaque, whatever the masks hold.
pub proof fn lemma_solid_rule(
    grid: Seq<Seq<Tile>>,
    masks: Seq<Raster>,
    tile_size: int,
    x: int,
    y: int,
    px: int,
    py: int,
)
    requires
        tile_size > 0,
        in_tile(tile_size, x, y, px, py),
        grid[x][y].color is Some,
        grid[x][y].graphic_option == Some(SOLID_FILL),
    ensures
        ({
            let c = grid[x][y].color.unwrap();
            board_pixel(grid, masks, tile_size, px, py) == (Pixel {
                r: c.r,
                g: c.g,
                b: c.b,
                a: 255,
            })
        }),
{
    lemma_footprint(tile_size, x, px);
    lemma_footprint(tile_size, y, py);
}

/// The footprint of a tile that lacks a colour or a pattern, or whose
/// pattern is above 34, stays white.
pub proof fn lemma_untouched_rule(
    grid: Seq<Seq<Tile>>,
    masks: Seq<Raster>,
    tile_size: int,
    x: int,
    y: int,
    px: int,
    py: int,
)
    requires
        tile_size > 0,
        in_tile(tile_size, x, y, px, py),
        grid[x][y].color is None || grid[x][y].graphic_option is None || (
        grid[x][y].graphic_option matches Some(g) && g > SOLID_FILL),
    ensures
        board_pixel(grid, masks, tile_size, px, py) == white(),
{
    lemma_footprint(tile_size, x, px);
    lemma_footprint(tile_size, y, py);
}

} // verus!
