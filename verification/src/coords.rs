//! Laying the grid out in a viewport, and mapping pixels back to cells.
//!
//! Every cell occupies a square of [`BLOCK_SIZE`] pixels, and the grid's
//! footprint is centered in the viewport. A pixel inside the footprint
//! belongs to the cell found by integer-dividing its offset from the
//! footprint's top-left corner by the cell size; a pixel outside resolves to
//! no cell at all.

use vstd::prelude::*;

use vstd::arithmetic::div_mod::lemma_div_multiples_vanish;
use vstd::arithmetic::div_mod::lemma_div_pos_is_pos;

use crate::block::Block;
use crate::grid::Nonogram;

verus! {

/// The pixel side length of one rendered cell.
pub const BLOCK_SIZE: u64 = 35;

/// The leftmost pixel of a grid of `w_cells` columns of width `unit`
/// centered in a viewport `vw` pixels wide.
pub open spec fn spec_origin_x(w_cells: nat, unit: int, vw: int) -> int {
    vw / 2 - (w_cells * unit) / 2
}

/// The topmost pixel of a grid of `h_cells` rows of height `unit` centered
/// in a viewport `vh` pixels tall.
pub open spec fn spec_origin_y(h_cells: nat, unit: int, vh: int) -> int {
    vh / 2 - (h_cells * unit) / 2
}

/// The cell under the pixel `(x, y)` for a grid of `w_cells × h_cells` cells
/// of size `unit` centered in a `vw × vh` viewport: no cell when the pixel
/// lies strictly outside the grid's bounding rectangle, and otherwise the
/// (row, column) found by dividing the offset from the top-left corner by
/// the cell size — provided that lands on an existing cell, which it does
/// everywhere but on the very bottom and right edges of the rectangle.
pub open spec fn spec_cell_at(
    w_cells: nat,
    h_cells: nat,
    unit: int,
    vw: int,
    vh: int,
    x: int,
    y: int,
) -> Option<(int, int)> {
    let w = w_cells * unit;
    let h = h_cells * unit;
    let ox = spec_origin_x(w_cells, unit, vw);
    let oy = spec_origin_y(h_cells, unit, vh);
    if x < ox || y < oy || x > ox + w || y > oy + h {
        None
    } else {
        let r = (y - oy) / unit;
        let c = (x - ox) / unit;
        if r < h_cells && c < w_cells {
            Some((r, c))
        } else {
            None
        }
    }
}

/// Whatever cell a pixel resolves to exists in the grid.
pub proof fn lemma_cell_at_in_range(
    w_cells: nat,
    h_cells: nat,
    unit: int,
    vw: int,
    vh: int,
    x: int,
    y: int,
)
    requires
        unit >= 1,
        spec_cell_at(w_cells, h_cells, unit, vw, vh, x, y) is Some,
    ensures
        ({
            let rc = spec_cell_at(w_cells, h_cells, unit, vw, vh, x, y)->Some_0;
            &&& 0 <= rc.0 < h_cells
            &&& 0 <= rc.1 < w_cells
        }),
{
    let ox = spec_origin_x(w_cells, unit, vw);
    let oy = spec_origin_y(h_cells, unit, vh);
    lemma_div_pos_is_pos(y - oy, unit);
    lemma_div_pos_is_pos(x - ox, unit);
}

/// The corners of the layout rectangle map where they should: the top-left
/// origin pixel resolves to cell `(0, 0)`; the pixel one cell size inside
/// the bottom-right corner resolves to the last cell; and any pixel strictly
/// outside the rectangle on any side resolves to no cell.
pub proof fn lemma_cell_at_boundary(w_cells: nat, h_cells: nat, unit: int, vw: int, vh: int)
    requires
        w_cells >= 1,
        h_cells >= 1,
        unit >= 1,
    ensures
        ({
            let ox = spec_origin_x(w_cells, unit, vw);
            let oy = spec_origin_y(h_cells, unit, vh);
            let w = w_cells * unit;
            let h = h_cells * unit;
            &&& spec_cell_at(w_cells, h_cells, unit, vw, vh, ox, oy) == Some((0int, 0int))
            &&& spec_cell_at(w_cells, h_cells, unit, vw, vh, ox + w - unit, oy + h - unit)
                == Some(((h_cells - 1) as int, (w_cells - 1) as int))
            &&& forall|x: int, y: int|
                x < ox || y < oy || x > ox + w || y > oy + h ==> spec_cell_at(
                    w_cells,
                    h_cells,
                    unit,
                    vw,
                    vh,
                    x,
                    y,
                ) is None
        }),
{
    let ox = spec_origin_x(w_cells, unit, vw);
    let oy = spec_origin_y(h_cells, unit, vh);
    assert(w_cells * unit >= 1 * unit && h_cells * unit >= 1 * unit) by (nonlinear_arith)
        requires
            w_cells >= 1,
            h_cells >= 1,
            unit >= 1,
    ;
    lemma_div_multiples_vanish(0, unit);
    assert((ox - ox) / unit == 0 && (oy - oy) / unit == 0) by {
        assert(unit * 0 == 0);
    }
    assert((w_cells * unit - unit) == unit * (w_cells - 1)) by (nonlinear_arith);
    assert((h_cells * unit - unit) == unit * (h_cells - 1)) by (nonlinear_arith);
    lemma_div_multiples_vanish(w_cells - 1, unit);
    lemma_div_multiples_vanish(h_cells - 1, unit);
}

/// The cell under a clicked pixel, if any.
///
/// `(x, y)` is the click position and `vw × vh` the viewport, all in pixels.
/// The result is exactly what [`spec_cell_at`] names for this grid's
/// dimensions and the fixed cell size [`BLOCK_SIZE`].
pub fn translate_xy_to_rc(nonogram: &Nonogram, x: i64, y: i64, vw: u32, vh: u32) -> (cell: Option<
    (usize, usize),
>)
    requires
        nonogram.wf(),
        nonogram.spec_width() * BLOCK_SIZE <= u32::MAX,
        nonogram.spec_height() * BLOCK_SIZE <= u32::MAX,
    ensures
        ({
            let t = spec_cell_at(
                nonogram.spec_width(),
                nonogram.spec_height(),
                BLOCK_SIZE as int,
                vw as int,
                vh as int,
                x as int,
                y as int,
            );
            match cell {
                Some(rc) => t == Some((rc.0 as int, rc.1 as int)),
                None => t is None,
            }
        }),
{
    let width = nonogram.width();
    let height = nonogram.height();
    let w_px: u64 = (width as u64) * BLOCK_SIZE;
    let h_px: u64 = (height as u64) * BLOCK_SIZE;
    let ox: i64 = (vw / 2) as i64 - (w_px / 2) as i64;
    let oy: i64 = (vh / 2) as i64 - (h_px / 2) as i64;
    if x < ox || y < oy || x > ox + (w_px as i64) || y > oy + (h_px as i64) {
        return None;
    }
    let col: u64 = ((x - ox) as u64) / BLOCK_SIZE;
    let row: u64 = ((y - oy) as u64) / BLOCK_SIZE;
    if row < height as u64 && col < width as u64 {
        Some((row as usize, col as usize))
    } else {
        None
    }
}

/// One cell of a render pass: the state to draw and the top-left pixel of
/// the square it occupies.
#[derive(Debug, Clone, Copy, PartialEq, Eq, Structural)]
pub struct CellPlacement {
    pub block: Block,
    pub x: i64,
    pub y: i64,
}

/// A full render pass over a grid: the footprint rectangle to paint as
/// background (top-left corner and pixel size), and every cell with its
/// position, in row-major order.
pub struct RenderPlan {
    pub origin_x: i64,
    pub origin_y: i64,
    pub width_px: u64,
    pub height_px: u64,
    pub cells: Vec<CellPlacement>,
}

/// Lays out a whole grid in a viewport: the footprint rectangle centered in
/// the viewport, and one placement per cell in row-major order, each cell
/// one [`BLOCK_SIZE`] square further right or down from the footprint's
/// top-left corner.
pub fn render_nonogram(nonogram: &Nonogram, vw: u32, vh: u32) -> (plan: RenderPlan)
    requires
        nonogram.wf(),
        nonogram.spec_width() * BLOCK_SIZE <= u32::MAX,
        nonogram.spec_height() * BLOCK_SIZE <= u32::MAX,
    ensures
        ({
            let w = nonogram.spec_width();
            let h = nonogram.spec_height();
            let unit = BLOCK_SIZE as int;
            &&& plan.origin_x == spec_origin_x(w, unit, vw as int)
            &&& plan.origin_y == spec_origin_y(h, unit, vh as int)
            &&& plan.width_px == w * unit
            &&& plan.height_px == h * unit
            &&& plan.cells@.len() == h * w
            &&& forall|r: int, c: int|
                0 <= r < h && 0 <= c < w ==> {
                    let cell = #[trigger] plan.cells@[r * w + c];
                    &&& cell.block == nonogram@[r][c]
                    &&& cell.x == plan.origin_x + c * unit
                    &&& cell.y == plan.origin_y + r * unit
                }
        }),
{
    let width = nonogram.width();
    let height = nonogram.height();
    let w_px: u64 = (width as u64) * BLOCK_SIZE;
    let h_px: u64 = (height as u64) * BLOCK_SIZE;
    let ox: i64 = (vw / 2) as i64 - (w_px / 2) as i64;
    let oy: i64 = (vh / 2) as i64 - (h_px / 2) as i64;
    let ghost gw = nonogram.spec_width();
    let ghost gh = nonogram.spec_height();
    let mut cells: Vec<CellPlacement> = Vec::new();
    let mut r: usize = 0;
    while r < height
        invariant
            r <= height,
            height == gh,
            width == gw,
            gh == nonogram.spec_height(),
            gw == nonogram.spec_width(),
            nonogram.wf(),
            gw * BLOCK_SIZE <= u32::MAX,
            gh * BLOCK_SIZE <= u32::MAX,
            ox == spec_origin_x(gw, BLOCK_SIZE as int, vw as int),
            oy == spec_origin_y(gh, BLOCK_SIZE as int, vh as int),
            cells@.len() == r * gw,
            forall|i: int, j: int|
                0 <= i < r && 0 <= j < gw ==> {
                    let cell = #[trigger] cells@[i * gw + j];
                    &&& cell.block == nonogram@[i][j]
                    &&& cell.x == ox + j * BLOCK_SIZE
                    &&& cell.y == oy + i * BLOCK_SIZE
                },
        decreases height - r,
    {
        let mut c: usize = 0;
        while c < width
            invariant
                c <= width,
                r < height,
                height == gh,
                width == gw,
                gh == nonogram.spec_height(),
                gw == nonogram.spec_width(),
                nonogram.wf(),
                gw * BLOCK_SIZE <= u32::MAX,
                gh * BLOCK_SIZE <= u32::MAX,
                ox == spec_origin_x(gw, BLOCK_SIZE as int, vw as int),
                oy == spec_origin_y(gh, BLOCK_SIZE as int, vh as int),
                cells@.len() == r * gw + c,
                forall|i: int, j: int|
                    0 <= i < r && 0 <= j < gw ==> {
                        let cell = #[trigger] cells@[i * gw + j];
                        &&& cell.block == nonogram@[i][j]
                        &&& cell.x == ox + j * BLOCK_SIZE
                        &&& cell.y == oy + i * BLOCK_SIZE
                    },
                forall|j: int|
                    0 <= j < c ==> {
                        let cell = #[trigger] cells@[r * gw + j];
                        &&& cell.block == nonogram@[r as int][j]
                        &&& cell.x == ox + j * BLOCK_SIZE
                        &&& cell.y == oy + r * BLOCK_SIZE
                    },
            decreases width - c,
        {
            proof {
                assert((r as int) * (gw as int) + c < gh * gw) by (nonlinear_arith)
                    requires
                        0 <= r < gh,
                        0 <= c < gw,
                ;
                assert((c as int) * (BLOCK_SIZE as int) < gw * BLOCK_SIZE) by (nonlinear_arith)
                    requires
                        0 <= c < gw,
                        BLOCK_SIZE >= 1,
                ;
                assert((r as int) * (BLOCK_SIZE as int) < gh * BLOCK_SIZE) by (nonlinear_arith)
                    requires
                        0 <= r < gh,
                        BLOCK_SIZE >= 1,
                ;
            }
            let block = nonogram.get(r, c);
            let px: i64 = ox + (c as u64 * BLOCK_SIZE) as i64;
            let py: i64 = oy + (r as u64 * BLOCK_SIZE) as i64;
            cells.push(CellPlacement { block, x: px, y: py });
            proof {
                assert forall|i: int, j: int| 0 <= i < r && 0 <= j < gw implies #[trigger] (i * gw
                    + j) < (r as int) * (gw as int) by {
                    assert(i * (gw as int) + j < (r as int) * (gw as int)) by (nonlinear_arith)
                        requires
                            0 <= i < r,
                            0 <= j < gw,
                    ;
                }
            }
            c += 1;
        }
        proof {
            assert((r + 1) * (gw as int) == (r as int) * (gw as int) + gw) by (nonlinear_arith);
            assert forall|i: int, j: int|
                0 <= i < r + 1 && 0 <= j < gw implies {
                    let cell = #[trigger] cells@[i * gw + j];
                    &&& cell.block == nonogram@[i][j]
                    &&& cell.x == ox + j * BLOCK_SIZE
                    &&& cell.y == oy + i * BLOCK_SIZE
                } by {
                if i == r as int {
                    assert(cells@[(r as int) * gw + j].block == nonogram@[r as int][j]);
                }
            }
        }
        r += 1;
    }
    proof {
        assert((gh as int) * (gw as int) == gh * gw);
    }
    RenderPlan { origin_x: ox, origin_y: oy, width_px: w_px, height_px: h_px, cells }
}

} // verus!
