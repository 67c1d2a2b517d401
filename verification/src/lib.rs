//! Reversi (Othello) match server: board rules, wire protocol, match
//! bookkeeping and matchmaking decisions.

pub mod text;
pub mod search;
pub mod game;
pub mod protocol;
pub mod ai;
pub mod server;
