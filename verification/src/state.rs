//! The puzzle session: the grids a running puzzle owns and how clicks edit
//! them.
//!
//! A session holds the pattern grid loaded from the resource and a working
//! grid of the same dimensions that starts all `Empty`. Clicks edit the
//! loaded pattern grid directly — the working grid is carried along
//! unchanged, ready for a player-facing edit mode — and a click outside the
//! grid's footprint is a normal event that changes nothing.

use vstd::prelude::*;

use crate::block::Block;
use crate::block::MouseButton;
use crate::coords::lemma_cell_at_in_range;
use crate::coords::spec_cell_at;
use crate::coords::translate_xy_to_rc;
use crate::coords::BLOCK_SIZE;
use crate::grid::Nonogram;
use crate::loader::load_nonogram;
use crate::loader::max_line_len;
use crate::loader::spec_lines;
use crate::loader::spec_parse_line;
use crate::loader::NonogramError;

verus! {

/// A puzzle session. It exists only after a pattern has loaded successfully,
/// and its two grids always have equal dimensions.
#[derive(Debug)]
pub struct MainState {
    /// The grid loaded from the pattern text; the grid that clicks edit.
    pub solved: Nonogram,
    /// The working grid: same dimensions, initially all `Empty`, not yet
    /// touched by any operation.
    pub current: Nonogram,
}

impl MainState {
    /// Both grids are well-formed and share their dimensions.
    pub open spec fn wf(&self) -> bool {
        &&& self.solved.wf()
        &&& self.current.wf()
        &&& self.current.spec_height() == self.solved.spec_height()
        &&& self.current.spec_width() == self.solved.spec_width()
    }

    /// Builds a session from pattern text: the pattern grid exactly as
    /// [`load_nonogram`] reads it, and a working grid of the same dimensions
    /// with every cell `Empty`. Fails exactly when the pattern does, and a
    /// failed construction yields no session at all.
    pub fn new(text: &str) -> (result: Result<MainState, NonogramError>)
        ensures
            ({
                let lines = spec_lines(text@);
                let w = max_line_len(lines);
                &&& (result is Err <==> w == 0)
                &&& (result is Err ==> result->Err_0 == NonogramError::InvalidDimensions)
                &&& (result is Ok ==> {
                    let s = result->Ok_0;
                    &&& s.wf()
                    &&& s.solved.spec_height() == lines.len()
                    &&& s.solved.spec_width() == w
                    &&& forall|i: int|
                        0 <= i < lines.len() ==> s.solved@[i] == spec_parse_line(lines[i], w)
                    &&& forall|r: int, c: int|
                        0 <= r < lines.len() && 0 <= c < w ==> s.current@[r][c] == Block::Empty
                })
            }),
    {
        let solved = match load_nonogram(text) {
            Ok(g) => g,
            Err(e) => return Err(e),
        };
        let height = solved.height();
        let width = solved.width();
        let current = Nonogram::all_empty(height, width);
        Ok(MainState { solved, current })
    }

    /// Applies a pointer click at pixel `(x, y)` in a `vw × vh` viewport.
    ///
    /// If the pixel resolves to a cell — [`spec_cell_at`] says when — that
    /// one cell of the pattern grid takes its toggled state and nothing else
    /// changes; if it resolves to none, the session is left as it was.
    pub fn handle_click(&mut self, button: MouseButton, x: i64, y: i64, vw: u32, vh: u32)
        requires
            old(self).wf(),
            old(self).solved.spec_width() * BLOCK_SIZE <= u32::MAX,
            old(self).solved.spec_height() * BLOCK_SIZE <= u32::MAX,
        ensures
            final(self).wf(),
            final(self).current == old(self).current,
            ({
                let t = spec_cell_at(
                    old(self).solved.spec_width(),
                    old(self).solved.spec_height(),
                    BLOCK_SIZE as int,
                    vw as int,
                    vh as int,
                    x as int,
                    y as int,
                );
                &&& (t is None ==> final(self).solved@ == old(self).solved@)
                &&& (t is Some ==> {
                    let r = t->Some_0.0;
                    let c = t->Some_0.1;
                    final(self).solved@ == old(self).solved@.update(
                        r,
                        old(self).solved@[r].update(
                            c,
                            old(self).solved@[r][c].spec_from_mouse_button(button),
                        ),
                    )
                })
            }),
    {
        let cell = translate_xy_to_rc(&self.solved, x, y, vw, vh);
        if let Some((r, c)) = cell {
            proof {
                lemma_cell_at_in_range(
                    self.solved.spec_width(),
                    self.solved.spec_height(),
                    BLOCK_SIZE as int,
                    vw as int,
                    vh as int,
                    x as int,
                    y as int,
                );
            }
            let cur = self.solved.get(r, c);
            let next = cur.from_mouse_button(button);
            self.solved.set(r, c, next);
        }
    }
}

} // verus!
