//! Match bookkeeping, queues, rooms and the decisions of a running match.

pub mod active_matches;
pub mod ai_match;
pub mod freematch;
pub mod history;
pub mod match_runner;
pub mod requests;
pub mod room;
pub mod round_robin;
pub mod session;
pub mod tcp;
pub mod wait_human;

pub use requests::{DEFAULT_COOLDOWN_SEC, DEFAULT_TIME_MS};
