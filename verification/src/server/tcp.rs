//! How a plain TCP connection is used.
use vstd::prelude::*;
use super::ai_match::AiType;

verus! {

/// What a TCP listener does with the players that connect to it.
#[derive(Clone)]
pub enum TcpMode {
    FreeMatch,
    Room { room_id: String },
    ClientWaitHuman,
    Ai { ai_type: AiType },
}

} // verus!
