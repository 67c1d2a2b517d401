//! The line protocol between clients and the server.

pub mod parser;
pub mod proto;

pub use parser::parse_client_command;
pub use proto::{ClientCommand, PlayerStat, ServerCommand, Wl};
