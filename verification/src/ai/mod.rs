//! Computer players.

pub mod egaroucid_ai;
pub mod random_ai;

pub use egaroucid_ai::EgaroucidAi;
pub use random_ai::decide_random_move;
