//! The rectangular grid of cells.
//!
//! A grid is a non-empty sequence of rows of equal, non-zero length,
//! addressed by (row, column), 0-indexed. Width and height are derived from
//! the shape of the stored rows, never stored separately.

use vstd::prelude::*;

use crate::block::Block;

verus! {

/// A rectangular grid of cells. The well-formedness predicate [`Nonogram::wf`]
/// states the shape invariant; every constructor of this crate establishes it
/// and every mutator preserves it.
#[derive(Debug)]
pub struct Nonogram {
    pub rows: Vec<Vec<Block>>,
}

impl View for Nonogram {
    type V = Seq<Seq<Block>>;

    open spec fn view(&self) -> Seq<Seq<Block>> {
        Seq::new(self.rows@.len(), |r: int| self.rows@[r]@)
    }
}

impl Nonogram {
    /// The shape invariant: at least one row, every row as long as the first,
    /// and that common length at least one.
    pub open spec fn wf(&self) -> bool {
        &&& self@.len() >= 1
        &&& self@[0].len() >= 1
        &&& forall|r: int| 0 <= r < self@.len() ==> (#[trigger] self@[r]).len() == self@[0].len()
    }

    /// The number of rows.
    pub open spec fn spec_height(&self) -> nat {
        self@.len()
    }

    /// The common row length.
    pub open spec fn spec_width(&self) -> nat {
        self@[0].len()
    }

    /// The number of rows.
    pub fn height(&self) -> (h: usize)
        ensures
            h == self.spec_height(),
    {
        self.rows.len()
    }

    /// The common row length.
    pub fn width(&self) -> (w: usize)
        requires
            self@.len() >= 1,
        ensures
            w == self.spec_width(),
    {
        self.rows[0].len()
    }

    /// The cell at the given row and column.
    pub fn get(&self, r: usize, c: usize) -> (b: Block)
        requires
            r < self@.len(),
            c < self@[r as int].len(),
        ensures
            b == self@[r as int][c as int],
    {
        self.rows[r][c]
    }

    /// Replaces the cell at the given row and column, leaving every other
    /// cell and the grid's shape unchanged.
    pub fn set(&mut self, r: usize, c: usize, b: Block)
        requires
            r < old(self)@.len(),
            c < old(self)@[r as int].len(),
        ensures
            final(self)@ == old(self)@.update(
                r as int,
                old(self)@[r as int].update(c as int, b),
            ),
            old(self).wf() ==> final(self).wf(),
    {
        self.rows[r][c] = b;
        proof {
            assert(final(self)@ =~= old(self)@.update(
                r as int,
                old(self)@[r as int].update(c as int, b),
            ));
            if old(self).wf() {
                assert forall|i: int| 0 <= i < final(self)@.len() implies (#[trigger] final(self)@[i]).len() == final(self)@[0].len() by {
                    assert(old(self)@[i].len() == old(self)@[0].len());
                }
            }
        }
    }

    /// A grid of the given dimensions with every cell `Empty`.
    pub fn all_empty(height: usize, width: usize) -> (g: Nonogram)
        requires
            height >= 1,
            width >= 1,
        ensures
            g.wf(),
            g.spec_height() == height,
            g.spec_width() == width,
            forall|r: int, c: int| 0 <= r < height && 0 <= c < width ==> g@[r][c] == Block::Empty,
    {
        let mut rows: Vec<Vec<Block>> = Vec::new();
        let mut i: usize = 0;
        while i < height
            invariant
                i <= height,
                width >= 1,
                rows@.len() == i,
                forall|r: int| 0 <= r < i ==> (#[trigger] rows@[r])@.len() == width,
                forall|r: int, c: int|
                    0 <= r < i && 0 <= c < width ==> rows@[r]@[c] == Block::Empty,
            decreases height - i,
        {
            let mut row: Vec<Block> = Vec::new();
            let mut j: usize = 0;
            while j < width
                invariant
                    j <= width,
                    row@.len() == j,
                    forall|c: int| 0 <= c < j ==> row@[c] == Block::Empty,
                decreases width - j,
            {
                row.push(Block::Empty);
                j += 1;
            }
            rows.push(row);
            i += 1;
        }
        Nonogram { rows }
    }
}

} // verus!
