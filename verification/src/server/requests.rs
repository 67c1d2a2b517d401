//! Requests and answers of the web interface, and the defaults of a
//! client's connection settings.
use vstd::prelude::*;
use crate::game::color::{preference_of_lowered, PreferredColor};
use crate::text::lowercase;
use super::active_matches::ActiveMatchInfo;
use super::freematch::FreeMatchClientInfo;
use super::history::{FinishedMatchInfo, RoomTournamentResult};
use super::room::RoomInfo;
use super::wait_human::WaitingClientInfo;

verus! {

/// Time per player when a connection names none: one second.
pub const DEFAULT_TIME_MS: i32 = 1000;

/// Time per game when a request to make a room names none: one minute.
pub const DEFAULT_ROOM_TIME_MS: i32 = 60_000;

/// Free-match cooldown when a connection names none: ten seconds.
pub const DEFAULT_COOLDOWN_SEC: u64 = 10;

/// Engine strength when a connection names none.
pub const DEFAULT_ENGINE_LEVEL: i32 = 7;

/// Engine strength when a request to add a computer player names none.
pub const DEFAULT_ADDED_AI_LEVEL: i32 = 3;

/// The settings of a client's connection.
pub struct MatchQuery {
    pub time_ms: Option<i32>,
    pub level: Option<i32>,
    pub use_book: Option<bool>,
    pub color: Option<String>,
    pub cooldown_sec: Option<u64>,
}

/// `v` limited to 0..=20.
pub open spec fn level_in_range(v: i32) -> i32 {
    if v < 0 {
        0
    } else if v > 20 {
        20
    } else {
        v
    }
}

fn clamp_level(v: i32) -> (r: i32)
    ensures
        r == level_in_range(v),
{
    if v < 0 {
        0
    } else if v > 20 {
        20
    } else {
        v
    }
}

impl MatchQuery {
    /// The time per player: as given, else `DEFAULT_TIME_MS`.
    pub fn assigned_time(&self) -> (r: i32)
        ensures
            r == match self.time_ms {
                Some(t) => t,
                None => DEFAULT_TIME_MS,
            },
    {
        match self.time_ms {
            Some(t) => t,
            None => DEFAULT_TIME_MS,
        }
    }

    /// The free-match cooldown: as given, else `DEFAULT_COOLDOWN_SEC`.
    pub fn cooldown(&self) -> (r: u64)
        ensures
            r == match self.cooldown_sec {
                Some(c) => c,
                None => DEFAULT_COOLDOWN_SEC,
            },
    {
        match self.cooldown_sec {
            Some(c) => c,
            None => DEFAULT_COOLDOWN_SEC,
        }
    }

    /// The engine strength: as given, else `DEFAULT_ENGINE_LEVEL`, limited
    /// to 0..=20.
    pub fn engine_level(&self) -> (r: i32)
        ensures
            r == level_in_range(
                match self.level {
                    Some(l) => l,
                    None => DEFAULT_ENGINE_LEVEL,
                },
            ),
    {
        clamp_level(
            match self.level {
                Some(l) => l,
                None => DEFAULT_ENGINE_LEVEL,
            },
        )
    }

    /// Whether the engine uses its opening book: as given, else yes.
    pub fn book(&self) -> (r: bool)
        ensures
            r == match self.use_book {
                Some(b) => b,
                None => true,
            },
    {
        match self.use_book {
            Some(b) => b,
            None => true,
        }
    }

    /// The colour asked for: as given, else `random`.
    pub fn preferred_color(&self) -> (r: PreferredColor)
        ensures
            r == match self.color {
                Some(c) => preference_of_lowered(lowercase(c@)),
                None => PreferredColor::Random,
            },
    {
        match &self.color {
            Some(c) => PreferredColor::from_str(c.as_str()),
            None => {
                proof {
                    reveal_strlit("random");
                    assert("random"@.len() == 6);
                }
                PreferredColor::from_lowered("random")
            },
        }
    }
}

/// A request to make a room.
pub struct CreateRoomRequest {
    pub room_id: String,
    pub time_ms: Option<i32>,
    pub match_count: Option<u32>,
}

impl CreateRoomRequest {
    /// The time per game: as given, else `DEFAULT_ROOM_TIME_MS`.
    pub fn time(&self) -> (r: i32)
        ensures
            r == match self.time_ms {
                Some(t) => t,
                None => DEFAULT_ROOM_TIME_MS,
            },
    {
        match self.time_ms {
            Some(t) => t,
            None => DEFAULT_ROOM_TIME_MS,
        }
    }

    /// The number of rounds: as given, else one.
    pub fn count(&self) -> (r: u32)
        ensures
            r == match self.match_count {
                Some(c) => c,
                None => 1,
            },
    {
        match self.match_count {
            Some(c) => c,
            None => 1,
        }
    }
}

/// A request to change a room's settings.
pub struct UpdateRoomRequest {
    pub time_ms: Option<i32>,
    pub match_count: Option<u32>,
}

/// A request to add a computer player to a room.
pub struct AddAiRequest {
    pub ai_type: Option<String>,
    pub level: Option<i32>,
    pub use_book: Option<bool>,
}

impl AddAiRequest {
    /// The kind of computer player: as given, else `egaroucid`.
    pub fn kind(&self) -> (r: String)
        ensures
            r@ == match self.ai_type {
                Some(t) => t@,
                None => "egaroucid"@,
            },
    {
        match &self.ai_type {
            Some(t) => t.clone(),
            None => String::from_str("egaroucid"),
        }
    }

    /// The engine strength: as given, else `DEFAULT_ADDED_AI_LEVEL`,
    /// limited to 0..=20.
    pub fn engine_level(&self) -> (r: i32)
        ensures
            r == level_in_range(
                match self.level {
                    Some(l) => l,
                    None => DEFAULT_ADDED_AI_LEVEL,
                },
            ),
    {
        clamp_level(
            match self.level {
                Some(l) => l,
                None => DEFAULT_ADDED_AI_LEVEL,
            },
        )
    }

    /// Whether the engine uses its opening book: as given, else yes.
    pub fn book(&self) -> (r: bool)
        ensures
            r == match self.use_book {
                Some(b) => b,
                None => true,
            },
    {
        match self.use_book {
            Some(b) => b,
            None => true,
        }
    }
}

/// A request to remove a computer player from a room.
pub struct RemoveAiRequest {
    pub ai_name: String,
}

/// Whether a request was carried out.
pub struct ApiResponse {
    pub success: bool,
}

/// The lobby: rooms, waiting clients, free-match queue, matches in
/// progress.
pub struct LobbyResponse {
    pub open_rooms: Vec<RoomInfo>,
    pub waiting_clients: Vec<WaitingClientInfo>,
    pub freematch_clients: Vec<FreeMatchClientInfo>,
    pub active_matches: Vec<ActiveMatchInfo>,
}

/// The record of finished matches and tournaments.
pub struct HistoryResponse {
    pub recent_matches: Vec<FinishedMatchInfo>,
    pub tournament_results: Vec<RoomTournamentResult>,
}

/// How many records to list (all when absent).
pub struct HistoryQuery {
    pub limit: Option<usize>,
}

} // verus!
