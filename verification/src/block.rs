//! The cell state and its toggle transition.
//!
//! A cell is always in exactly one of four states. A pointer button proposes
//! a target state; applying a button to a cell that already shows the
//! proposed state clears the cell, and otherwise overwrites it.

use vstd::prelude::*;

verus! {

/// The four states a grid cell can take. A cell carries nothing but this tag.
#[derive(Debug, Clone, Copy, PartialEq, Eq, Structural)]
pub enum Block {
    Empty,
    Filled,
    Crossed,
    Marked,
}

/// A pointer button, as the grid logic sees it: the three distinguished
/// buttons, and `Other` for any further button a device may report.
#[derive(Debug, Clone, Copy, PartialEq, Eq, Structural)]
pub enum MouseButton {
    Left,
    Right,
    Middle,
    Other,
}

/// The state a button proposes: left fills, right crosses, middle marks,
/// and any other button defaults to filling.
pub open spec fn proposed_state(button: MouseButton) -> Block {
    match button {
        MouseButton::Left => Block::Filled,
        MouseButton::Right => Block::Crossed,
        MouseButton::Middle => Block::Marked,
        MouseButton::Other => Block::Filled,
    }
}

impl Block {
    /// The toggle rule: a cell already in the proposed state is cleared to
    /// `Empty`; any other cell is overwritten with the proposed state.
    pub open spec fn spec_from_mouse_button(self, button: MouseButton) -> Block {
        if self == proposed_state(button) {
            Block::Empty
        } else {
            proposed_state(button)
        }
    }

    /// Applies a button press to this cell and returns the next state.
    pub fn from_mouse_button(&self, button: MouseButton) -> (next: Block)
        ensures
            next == self.spec_from_mouse_button(button),
    {
        let proposed_block = match button {
            MouseButton::Left => Block::Filled,
            MouseButton::Right => Block::Crossed,
            MouseButton::Middle => Block::Marked,
            MouseButton::Other => Block::Filled,
        };

        if *self == proposed_block {
            Block::Empty
        } else {
            proposed_block
        }
    }
}

/// Toggling is its own inverse: a button applied to its proposed state
/// clears the cell, applied to a cleared cell it restores the proposed
/// state, and applying the same button twice returns any cell that started
/// at `Empty` or at the proposed state to where it began.
pub proof fn lemma_toggle_involution(s: Block, button: MouseButton)
    ensures
        proposed_state(button).spec_from_mouse_button(button) == Block::Empty,
        Block::Empty.spec_from_mouse_button(button) == proposed_state(button),
        s == Block::Empty || s == proposed_state(button)
            ==> s.spec_from_mouse_button(button).spec_from_mouse_button(button) == s,
{
}

} // verus!
