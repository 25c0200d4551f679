//! A nonogram-style puzzle grid: a rectangular board of four-valued cells,
//! loaded from a plain text pattern, edited by toggling cells with pointer
//! buttons, and laid out as fixed-size blocks centered in a viewport.

pub mod block;
pub mod coords;
pub mod grid;
pub mod loader;
pub mod state;

pub use block::Block;
pub use block::MouseButton;
pub use grid::Nonogram;
pub use loader::NonogramError;
pub use state::MainState;
