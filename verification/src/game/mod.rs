//! Game rules: colours, moves and the board.

pub mod board;
pub mod board_laws;
pub mod color;
pub mod move_kind;

pub use color::{Color, PreferredColor};
pub use move_kind::Move;
pub use board::{Board, Pos};
