//! Rooms: players and computer players gather, then play a round-robin
//! tournament.
use vstd::prelude::*;
use crate::game::color::Color;
use crate::protocol::proto::{copy_stats, PlayerStat};
use crate::text::{copy_strings, decimal, push_decimal, starts_with, str_eq};
use super::ai_match::{engine_name, engine_player_name};
use super::history::{TournamentMatchDetail, RoomTournamentResult};
use super::match_runner::{MatchResult, Participant};
use super::session::ActivePlayerSession;

verus! {

/// A room as the lobby lists it.
#[derive(Debug, Clone)]
pub struct RoomInfo {
    pub room_id: String,
    pub current_clients: usize,
    pub ai_count: usize,
    pub assigned_time_ms: i32,
    pub match_count: u32,
    pub client_names: Vec<String>,
    pub ai_names: Vec<String>,
    pub status: String,
}

/// A room: its clients, its computer players (name, level, opening book),
/// the time allowed per game, the number of rounds, and whether its
/// tournament runs.
pub struct Room {
    pub room_id: String,
    pub clients: Vec<ActivePlayerSession>,
    pub ais: Vec<(String, i32, bool)>,
    pub assigned_time_ms: i32,
    pub match_count: u32,
    pub is_running: bool,
}

/// The name of the n-th random computer player of a room: `AI_Random_n`.
pub open spec fn random_ai_name(n: nat) -> Seq<char> {
    "AI_Random_"@ + decimal(n)
}

/// The first position of the computer player named `name`, if any.
pub open spec fn find_ai(ais: Seq<(String, i32, bool)>, name: Seq<char>) -> Option<int> {
    if exists|i: int| 0 <= i < ais.len() && (#[trigger] ais[i]).0@ == name {
        Some(
            choose|i: int|
                0 <= i < ais.len() && (#[trigger] ais[i]).0@ == name && forall|j: int|
                    0 <= j < i ==> (#[trigger] ais[j]).0@ != name,
        )
    } else {
        None
    }
}

/// The names of the room's clients, in order.
pub open spec fn client_names(cs: Seq<ActivePlayerSession>) -> Seq<Seq<char>> {
    cs.map_values(|c: ActivePlayerSession| c.handle.player_name@)
}

/// The names of the room's computer players, in order.
pub open spec fn ai_names(ais: Seq<(String, i32, bool)>) -> Seq<Seq<char>> {
    ais.map_values(|a: (String, i32, bool)| a.0@)
}

/// The lobby's view of a room: its id, how many clients and computer
/// players it has and their names, its time and number of rounds, and
/// `running` or `waiting`.
pub open spec fn room_info_of(room: Room, info: RoomInfo) -> bool {
    &&& info.room_id == room.room_id
    &&& info.current_clients == room.clients@.len()
    &&& info.ai_count == room.ais@.len()
    &&& info.assigned_time_ms == room.assigned_time_ms
    &&& info.match_count == room.match_count
    &&& info.client_names@.map_values(|s: String| s@) == client_names(room.clients@)
    &&& info.ai_names@.map_values(|s: String| s@) == ai_names(room.ais@)
    &&& info.status@ == if room.is_running {
        "running"@
    } else {
        "waiting"@
    }
}

impl Room {
    /// An empty room; at least one round is played.
    pub fn new(room_id: String, assigned_time_ms: i32, match_count: u32) -> (r: Room)
        ensures
            r.room_id == room_id,
            r.clients@.len() == 0,
            r.ais@.len() == 0,
            r.assigned_time_ms == assigned_time_ms,
            r.match_count == if match_count < 1 {
                1
            } else {
                match_count
            },
            !r.is_running,
    {
        Room {
            room_id,
            clients: Vec::new(),
            ais: Vec::new(),
            assigned_time_ms,
            match_count: if match_count < 1 {
                1
            } else {
                match_count
            },
            is_running: false,
        }
    }

    /// Adds a computer player: `random` gives `AI_Random_<n>` for the n-th
    /// computer player of the room, anything else an engine player.
    pub fn add_ai(&mut self, ai_type_str: &str, level: i32, use_book: bool)
        requires
            old(self).ais@.len() < u64::MAX,
        ensures
            final(self).ais@.len() == old(self).ais@.len() + 1,
            final(self).ais@.drop_last() == old(self).ais@,
            final(self).ais@.last().0@ == if ai_type_str@ == "random"@ {
                random_ai_name((old(self).ais@.len() + 1) as nat)
            } else {
                engine_name(level, use_book)
            },
            final(self).ais@.last().1 == level,
            final(self).ais@.last().2 == use_book,
            final(self).room_id == old(self).room_id,
            final(self).clients == old(self).clients,
            final(self).assigned_time_ms == old(self).assigned_time_ms,
            final(self).match_count == old(self).match_count,
            final(self).is_running == old(self).is_running,
    {
        let ai_name = if str_eq(ai_type_str, "random") {
            let mut s = String::from_str("AI_Random_");
            push_decimal(&mut s, self.ais.len() as u64 + 1);
            s
        } else {
            engine_player_name(level, use_book)
        };
        let ghost before = self.ais@;
        self.ais.push((ai_name, level, use_book));
        assert(self.ais@.drop_last() =~= before);
    }

    /// Removes the computer player named `ai_name`, unless the tournament
    /// runs; tells whether it was removed.
    pub fn remove_ai(&mut self, ai_name: &str) -> (r: bool)
        ensures
            r == (!old(self).is_running && find_ai(old(self).ais@, ai_name@) is Some),
            r ==> final(self).ais@ == old(self).ais@.remove(
                find_ai(old(self).ais@, ai_name@)->0,
            ),
            !r ==> final(self).ais == old(self).ais,
            final(self).room_id == old(self).room_id,
            final(self).clients == old(self).clients,
            final(self).assigned_time_ms == old(self).assigned_time_ms,
            final(self).match_count == old(self).match_count,
            final(self).is_running == old(self).is_running,
    {
        if self.is_running {
            return false;
        }
        let mut i: usize = 0;
        while i < self.ais.len()
            invariant
                i <= self.ais@.len(),
                self.ais == old(self).ais,
                self.room_id == old(self).room_id,
                self.clients == old(self).clients,
                self.assigned_time_ms == old(self).assigned_time_ms,
                self.match_count == old(self).match_count,
                self.is_running == old(self).is_running,
                !self.is_running,
                forall|j: int| 0 <= j < i ==> (#[trigger] self.ais@[j]).0@ != ai_name@,
            decreases self.ais.len() - i,
        {
            if str_eq(self.ais[i].0.as_str(), ai_name) {
                assert(find_ai(self.ais@, ai_name@) == Some(i as int));
                self.ais.remove(i);
                return true;
            }
            i += 1;
        }
        false
    }

    /// The lobby's view of the room.
    pub fn to_info(&self) -> (r: RoomInfo)
        ensures
            r.room_id == self.room_id,
            r.current_clients == self.clients@.len(),
            r.ai_count == self.ais@.len(),
            r.assigned_time_ms == self.assigned_time_ms,
            r.match_count == self.match_count,
            r.client_names@.map_values(|s: String| s@) == client_names(self.clients@),
            r.ai_names@.map_values(|s: String| s@) == ai_names(self.ais@),
            r.status@ == if self.is_running {
                "running"@
            } else {
                "waiting"@
            },
    {
        let mut cn: Vec<String> = Vec::new();
        let mut i: usize = 0;
        while i < self.clients.len()
            invariant
                i <= self.clients@.len(),
                cn@.len() == i,
                forall|j: int| 0 <= j < i ==> (#[trigger] cn@[j])@ == self.clients@[j].handle.player_name@,
            decreases self.clients.len() - i,
        {
            cn.push(self.clients[i].handle.player_name.clone());
            i += 1;
        }
        assert(cn@.map_values(|s: String| s@) =~= client_names(self.clients@));
        let mut an: Vec<String> = Vec::new();
        let mut k: usize = 0;
        while k < self.ais.len()
            invariant
                k <= self.ais@.len(),
                an@.len() == k,
                forall|j: int| 0 <= j < k ==> (#[trigger] an@[j])@ == self.ais@[j].0@,
            decreases self.ais.len() - k,
        {
            an.push(self.ais[k].0.clone());
            k += 1;
        }
        assert(an@.map_values(|s: String| s@) =~= ai_names(self.ais@));
        RoomInfo {
            room_id: self.room_id.clone(),
            current_clients: self.clients.len(),
            ai_count: self.ais.len(),
            assigned_time_ms: self.assigned_time_ms,
            match_count: self.match_count,
            client_names: cn,
            ai_names: an,
            status: if self.is_running {
                String::from_str("running")
            } else {
                String::from_str("waiting")
            },
        }
    }
}

/// The first position of the room with id `room_id`, if any.
pub open spec fn find_room(rooms: Seq<Room>, room_id: Seq<char>) -> Option<int> {
    if exists|i: int| 0 <= i < rooms.len() && (#[trigger] rooms[i]).room_id@ == room_id {
        Some(
            choose|i: int|
                0 <= i < rooms.len() && (#[trigger] rooms[i]).room_id@ == room_id && forall|j: int|
                    0 <= j < i ==> (#[trigger] rooms[j]).room_id@ != room_id,
        )
    } else {
        None
    }
}

/// What a tournament starts with: the room's id, its clients, its computer
/// players, the time per game and the number of rounds.
pub struct TournamentSetup {
    pub room_id: String,
    pub clients: Vec<ActivePlayerSession>,
    pub ais: Vec<(String, i32, bool)>,
    pub assigned_time_ms: i32,
    pub match_count: u32,
}

/// No two rooms carry the same id.
pub open spec fn room_ids_distinct(rooms: Seq<Room>) -> bool {
    forall|i: int, j: int| 0 <= i < j < rooms.len() ==> rooms[i].room_id@ != rooms[j].room_id@
}

/// All rooms. Every operation keeps the room ids distinct, so a room id
/// names one room (see `room_ids_distinct`).
pub struct RoomManager {
    rooms: Vec<Room>,
}

impl RoomManager {
    /// The rooms, in the order they were made.
    pub closed spec fn rooms(&self) -> Seq<Room> {
        self.rooms@
    }

    /// No rooms.
    pub fn new() -> (r: RoomManager)
        ensures
            room_ids_distinct(r.rooms()),
            r.rooms() == Seq::<Room>::empty(),
    {
        RoomManager { rooms: Vec::new() }
    }

    fn position(&self, room_id: &str) -> (r: Option<usize>)
        ensures
            match r {
                Some(i) => find_room(self.rooms(), room_id@) == Some(i as int) && i < self.rooms().len()
                    && self.rooms()[i as int].room_id@ == room_id@,
                None => find_room(self.rooms(), room_id@) is None,
            },
    {
        let mut i: usize = 0;
        while i < self.rooms.len()
            invariant
                i <= self.rooms@.len(),
                forall|j: int| 0 <= j < i ==> (#[trigger] self.rooms@[j]).room_id@ != room_id@,
            decreases self.rooms.len() - i,
        {
            if str_eq(self.rooms[i].room_id.as_str(), room_id) {
                assert(find_room(self.rooms@, room_id@) == Some(i as int));
                return Some(i);
            }
            i += 1;
        }
        None
    }

    /// The room with id `room_id`, made (with the given time and number of
    /// rounds) when there is none.
    pub fn get_or_create(&mut self, room_id: &str, assigned_time_ms: i32, match_count: u32) -> (r: &mut Room)
        ensures
            final(r).room_id == r.room_id && room_ids_distinct(old(self).rooms()) ==> room_ids_distinct(final(self).rooms()),
            match find_room(old(self).rooms(), room_id@) {
                Some(i) => *r == old(self).rooms()[i] && final(self).rooms() == old(self).rooms().update(i, *final(r)),
                None => {
                    &&& r.room_id@ == room_id@
                    &&& r.clients@.len() == 0
                    &&& r.ais@.len() == 0
                    &&& r.assigned_time_ms == assigned_time_ms
                    &&& r.match_count == if match_count < 1 {
                        1
                    } else {
                        match_count
                    }
                    &&& !r.is_running
                    &&& final(self).rooms() == old(self).rooms().push(*final(r))
                },
            },
    {
        let i = match self.position(room_id) {
            Some(i) => i,
            None => {
                self.rooms.push(Room::new(String::from_str(room_id), assigned_time_ms, match_count));
                self.rooms.len() - 1
            },
        };
        &mut self.rooms[i]
    }

    /// Removes the room with id `room_id` unless its tournament runs;
    /// tells whether it was removed.
    pub fn remove_room(&mut self, room_id: &str) -> (r: bool)
        ensures
            room_ids_distinct(old(self).rooms()) ==> room_ids_distinct(final(self).rooms()),
            match find_room(old(self).rooms(), room_id@) {
                Some(i) => r == !old(self).rooms()[i].is_running && if r {
                    final(self).rooms() == old(self).rooms().remove(i)
                } else {
                    final(self).rooms() == old(self).rooms()
                },
                None => !r && final(self).rooms() == old(self).rooms(),
            },
    {
        match self.position(room_id) {
            Some(i) => {
                if !self.rooms[i].is_running {
                    self.rooms.remove(i);
                    true
                } else {
                    false
                }
            },
            None => false,
        }
    }

    /// Sets the time and the number of rounds (at least one) of a room
    /// whose tournament does not run; tells whether it did.
    pub fn update_room(&mut self, room_id: &str, time_ms: Option<i32>, match_count: Option<u32>) -> (r: bool)
        ensures
            room_ids_distinct(old(self).rooms()) ==> room_ids_distinct(final(self).rooms()),
            match find_room(old(self).rooms(), room_id@) {
                Some(i) => {
                    let old_room = old(self).rooms()[i];
                    &&& r == !old_room.is_running
                    &&& final(self).rooms().len() == old(self).rooms().len()
                    &&& forall|j: int|
                        0 <= j < old(self).rooms().len() && j != i ==> #[trigger] final(self).rooms()[j] == old(self).rooms()[j]
                    &&& r ==> {
                        let room = final(self).rooms()[i];
                        &&& room.room_id == old_room.room_id
                        &&& room.clients == old_room.clients
                        &&& room.ais == old_room.ais
                        &&& room.is_running == old_room.is_running
                        &&& room.assigned_time_ms == match time_ms {
                            Some(t) => t,
                            None => old_room.assigned_time_ms,
                        }
                        &&& room.match_count == match match_count {
                            Some(m) => if m < 1 {
                                1
                            } else {
                                m
                            },
                            None => old_room.match_count,
                        }
                    }
                    &&& !r ==> final(self).rooms() == old(self).rooms()
                },
                None => !r && final(self).rooms() == old(self).rooms(),
            },
    {
        match self.position(room_id) {
            Some(i) => {
                let room = &mut self.rooms[i];
                if room.is_running {
                    return false;
                }
                if let Some(t) = time_ms {
                    room.assigned_time_ms = t;
                }
                if let Some(m) = match_count {
                    room.match_count = if m < 1 {
                        1
                    } else {
                        m
                    };
                }
                true
            },
            None => false,
        }
    }

    /// Removes the clients named `player_name` from a room whose
    /// tournament does not run; tells whether the room was found idle.
    pub fn remove_client_from_room(&mut self, room_id: &str, player_name: &str) -> (r: bool)
        ensures
            room_ids_distinct(old(self).rooms()) ==> room_ids_distinct(final(self).rooms()),
            match find_room(old(self).rooms(), room_id@) {
                Some(i) => {
                    let old_room = old(self).rooms()[i];
                    &&& r == !old_room.is_running
                    &&& final(self).rooms().len() == old(self).rooms().len()
                    &&& forall|j: int|
                        0 <= j < old(self).rooms().len() && j != i ==> #[trigger] final(self).rooms()[j] == old(self).rooms()[j]
                    &&& r ==> {
                        let room = final(self).rooms()[i];
                        &&& room.room_id == old_room.room_id
                        &&& room.clients@ == sessions_without(old_room.clients@, player_name@)
                        &&& room.ais == old_room.ais
                        &&& room.is_running == old_room.is_running
                        &&& room.assigned_time_ms == old_room.assigned_time_ms
                        &&& room.match_count == old_room.match_count
                    }
                    &&& !r ==> final(self).rooms() == old(self).rooms()
                },
                None => !r && final(self).rooms() == old(self).rooms(),
            },
    {
        match self.position(room_id) {
            Some(i) => {
                let room = &mut self.rooms[i];
                if room.is_running {
                    return false;
                }
                remove_sessions_named(&mut room.clients, player_name);
                true
            },
            None => false,
        }
    }

    /// Adds a computer player to a room whose tournament does not run;
    /// tells whether it did. See `Room::add_ai`.
    pub fn add_ai_with_book(&mut self, room_id: &str, ai_type_str: &str, level: i32, use_book: bool) -> (r: bool)
        requires
            forall|j: int| 0 <= j < old(self).rooms().len() ==> (#[trigger] old(self).rooms()[j]).ais@.len() < u64::MAX,
        ensures
            room_ids_distinct(old(self).rooms()) ==> room_ids_distinct(final(self).rooms()),
            match find_room(old(self).rooms(), room_id@) {
                Some(i) => {
                    let old_room = old(self).rooms()[i];
                    &&& r == !old_room.is_running
                    &&& final(self).rooms().len() == old(self).rooms().len()
                    &&& forall|j: int|
                        0 <= j < old(self).rooms().len() && j != i ==> #[trigger] final(self).rooms()[j] == old(self).rooms()[j]
                    &&& r ==> {
                        let room = final(self).rooms()[i];
                        &&& room.ais@.drop_last() == old_room.ais@
                        &&& room.ais@.len() == old_room.ais@.len() + 1
                        &&& room.ais@.last().0@ == if ai_type_str@ == "random"@ {
                            random_ai_name((old_room.ais@.len() + 1) as nat)
                        } else {
                            engine_name(level, use_book)
                        }
                        &&& room.ais@.last().1 == level
                        &&& room.ais@.last().2 == use_book
                        &&& room.room_id == old_room.room_id
                        &&& room.clients == old_room.clients
                        &&& room.is_running == old_room.is_running
                        &&& room.assigned_time_ms == old_room.assigned_time_ms
                        &&& room.match_count == old_room.match_count
                    }
                    &&& !r ==> final(self).rooms() == old(self).rooms()
                },
                None => !r && final(self).rooms() == old(self).rooms(),
            },
    {
        match self.position(room_id) {
            Some(i) => {
                let room = &mut self.rooms[i];
                if room.is_running {
                    return false;
                }
                room.add_ai(ai_type_str, level, use_book);
                true
            },
            None => false,
        }
    }

    /// Removes a computer player from a room; see `Room::remove_ai`.
    pub fn remove_ai(&mut self, room_id: &str, ai_name: &str) -> (r: bool)
        ensures
            room_ids_distinct(old(self).rooms()) ==> room_ids_distinct(final(self).rooms()),
            match find_room(old(self).rooms(), room_id@) {
                Some(i) => {
                    let old_room = old(self).rooms()[i];
                    &&& r == (!old_room.is_running && find_ai(old_room.ais@, ai_name@) is Some)
                    &&& final(self).rooms().len() == old(self).rooms().len()
                    &&& forall|j: int|
                        0 <= j < old(self).rooms().len() && j != i ==> #[trigger] final(self).rooms()[j] == old(self).rooms()[j]
                    &&& r ==> {
                        let room = final(self).rooms()[i];
                        &&& room.ais@ == old_room.ais@.remove(find_ai(old_room.ais@, ai_name@)->0)
                        &&& room.room_id == old_room.room_id
                        &&& room.clients == old_room.clients
                        &&& room.is_running == old_room.is_running
                        &&& room.assigned_time_ms == old_room.assigned_time_ms
                        &&& room.match_count == old_room.match_count
                    }
                    &&& !r ==> final(self).rooms() == old(self).rooms()
                },
                None => !r && final(self).rooms() == old(self).rooms(),
            },
    {
        match self.position(room_id) {
            Some(i) => {
                let room = &mut self.rooms[i];
                room.remove_ai(ai_name)
            },
            None => false,
        }
    }

    /// Starts the tournament of a room that has players and does not run
    /// yet: the room is taken out and what the tournament needs comes
    /// back. Otherwise nothing changes and `None` comes back.
    pub fn start_tournament(&mut self, room_id: &str) -> (r: Option<TournamentSetup>)
        ensures
            room_ids_distinct(old(self).rooms()) ==> room_ids_distinct(final(self).rooms()),
            match find_room(old(self).rooms(), room_id@) {
                Some(i) => {
                    let room = old(self).rooms()[i];
                    let startable = !room.is_running && (room.clients@.len() > 0
                        || room.ais@.len() > 0);
                    &&& r is Some == startable
                    &&& startable ==> {
                        &&& final(self).rooms() == old(self).rooms().remove(i)
                        &&& r->0.room_id == room.room_id
                        &&& r->0.clients == room.clients
                        &&& r->0.ais == room.ais
                        &&& r->0.assigned_time_ms == room.assigned_time_ms
                        &&& r->0.match_count == room.match_count
                    }
                    &&& !startable ==> final(self).rooms() == old(self).rooms()
                },
                None => r is None && final(self).rooms() == old(self).rooms(),
            },
    {
        match self.position(room_id) {
            Some(i) => {
                let startable = {
                    let room = &self.rooms[i];
                    !room.is_running && (room.clients.len() > 0 || room.ais.len() > 0)
                };
                if !startable {
                    return None;
                }
                let room = self.rooms.remove(i);
                Some(
                    TournamentSetup {
                        room_id: room.room_id,
                        clients: room.clients,
                        ais: room.ais,
                        assigned_time_ms: room.assigned_time_ms,
                        match_count: room.match_count,
                    },
                )
            },
            None => None,
        }
    }

    /// The lobby's view of every room.
    pub fn list_info(&self) -> (r: Vec<RoomInfo>)
        ensures
            r@.len() == self.rooms().len(),
            forall|i: int| 0 <= i < r@.len() ==> room_info_of(self.rooms()[i], #[trigger] r@[i]),
    {
        let mut out: Vec<RoomInfo> = Vec::new();
        let mut i: usize = 0;
        while i < self.rooms.len()
            invariant
                i <= self.rooms@.len(),
                out@.len() == i,
                forall|k: int| 0 <= k < i ==> room_info_of(self.rooms@[k], #[trigger] out@[k]),
            decreases self.rooms.len() - i,
        {
            out.push(self.rooms[i].to_info());
            i += 1;
        }
        out
    }

    /// Puts a client into the room `room_id` (made with the given time and
    /// one round when there is none), unless its tournament runs; tells
    /// whether the client joined.
    pub fn join(&mut self, room_id: &str, session: ActivePlayerSession, assigned_time_ms: i32) -> (r: bool)
        ensures
            room_ids_distinct(old(self).rooms()) ==> room_ids_distinct(final(self).rooms()),
            match find_room(old(self).rooms(), room_id@) {
                Some(i) => {
                    let old_room = old(self).rooms()[i];
                    &&& r == !old_room.is_running
                    &&& final(self).rooms().len() == old(self).rooms().len()
                    &&& forall|j: int|
                        0 <= j < old(self).rooms().len() && j != i ==> #[trigger] final(self).rooms()[j] == old(self).rooms()[j]
                    &&& r ==> final(self).rooms()[i].clients@ == old_room.clients@.push(session)
                    &&& !r ==> final(self).rooms() == old(self).rooms()
                },
                None => {
                    &&& r
                    &&& final(self).rooms().len() == old(self).rooms().len() + 1
                    &&& final(self).rooms().drop_last() == old(self).rooms()
                    &&& final(self).rooms().last().room_id@ == room_id@
                    &&& final(self).rooms().last().clients@ == seq![session]
                    &&& final(self).rooms().last().assigned_time_ms == assigned_time_ms
                    &&& final(self).rooms().last().match_count == 1
                },
            },
    {
        match self.position(room_id) {
            Some(i) => {
                let room = &mut self.rooms[i];
                if room.is_running {
                    return false;
                }
                room.clients.push(session);
                true
            },
            None => {
                let mut room = Room::new(String::from_str(room_id), assigned_time_ms, 1);
                room.clients.push(session);
                let ghost before = self.rooms@;
                self.rooms.push(room);
                assert(self.rooms@.drop_last() =~= before);
                true
            },
        }
    }
}

/// The sessions of `s` whose player is not named `name`.
pub open spec fn sessions_without(s: Seq<ActivePlayerSession>, name: Seq<char>) -> Seq<ActivePlayerSession>
    decreases s.len(),
{
    if s.len() == 0 {
        s
    } else {
        let rest = sessions_without(s.drop_last(), name);
        if s.last().handle.player_name@ == name {
            rest
        } else {
            rest.push(s.last())
        }
    }
}

fn remove_sessions_named(v: &mut Vec<ActivePlayerSession>, name: &str)
    ensures
        final(v)@ == sessions_without(old(v)@, name@),
{
    let mut rest: Vec<ActivePlayerSession> = Vec::new();
    std::mem::swap(&mut rest, v);
    let ghost orig = rest@;
    let n = rest.len();
    let mut i: usize = 0;
    assert(orig.skip(0) =~= orig);
    while i < n
        invariant
            n == orig.len(),
            i <= n,
            rest@ == orig.skip(i as int),
            v@ == sessions_without(orig.take(i as int), name@),
        decreases n - i,
    {
        let c = rest.remove(0);
        assert(c == orig[i as int]);
        if !str_eq(c.handle.player_name.as_str(), name) {
            v.push(c);
        }
        proof {
            assert(orig.take(i + 1).drop_last() =~= orig.take(i as int));
            assert(rest@ =~= orig.skip(i + 1));
        }
        i += 1;
    }
    assert(orig.take(n as int) =~= orig);
}

/// The participant for a computer player of a room: names starting with
/// `AI_Random` play at random, the others are engine players.
pub open spec fn ai_slot(p: Participant, a: (String, i32, bool)) -> bool {
    if 9 <= a.0@.len() && a.0@.take(9) == "AI_Random"@ {
        p == Participant::RandomAi { name: a.0 }
    } else {
        p == Participant::EgaroucidAi { name: a.0, level: a.1, use_book: a.2 }
    }
}

/// The players of a tournament: the clients first, then the computer
/// players (`AI_Random...` names play at random, the others are engine
/// players).
pub fn tournament_participants(clients: Vec<ActivePlayerSession>, ais: Vec<(String, i32, bool)>) -> (r: Vec<Participant>)
    ensures
        r@.len() == clients@.len() + ais@.len(),
        forall|k: int| 0 <= k < clients@.len() ==> (#[trigger] r@[k]) == Participant::Human(clients@[k]),
        forall|k: int| 0 <= k < ais@.len() ==> ai_slot(#[trigger] r@[clients@.len() + k], ais@[k]),
{
    let ghost cs = clients@;
    let ghost ai_list = ais@;
    let mut out: Vec<Participant> = Vec::new();
    let mut clients = clients;
    let mut k: usize = 0;
    let n = clients.len();
    assert(cs.skip(0) =~= cs);
    while k < n
        invariant
            n == cs.len(),
            k <= n,
            clients@ == cs.skip(k as int),
            out@.len() == k,
            forall|m: int| 0 <= m < k ==> (#[trigger] out@[m]) == Participant::Human(cs[m]),
        decreases n - k,
    {
        let c = clients.remove(0);
        out.push(Participant::Human(c));
        k += 1;
        assert(clients@ =~= cs.skip(k as int));
    }
    let mut ais = ais;
    let m_total = ais.len();
    let mut m: usize = 0;
    assert(ai_list.skip(0) =~= ai_list);
    proof {
        reveal_strlit("AI_Random");
    }
    while m < m_total
        invariant
            m_total == ai_list.len(),
            n == cs.len(),
            m <= m_total,
            ais@ == ai_list.skip(m as int),
            out@.len() == n + m,
            forall|q: int| 0 <= q < n ==> (#[trigger] out@[q]) == Participant::Human(cs[q]),
            forall|q: int| 0 <= q < m ==> ai_slot(#[trigger] out@[n + q], ai_list[q]),
        decreases m_total - m,
    {
        let a = ais.remove(0);
        assert(a == ai_list[m as int]);
        let ghost before = out@;
        let (name, level, use_book) = a;
        let random = starts_with(name.as_str(), "AI_Random");
        proof {
            reveal_strlit("AI_Random");
            if name@.len() >= 9 {
                assert(name@.subrange(0, 9) =~= name@.take(9));
            }
        }
        if random {
            out.push(Participant::RandomAi { name });
        } else {
            out.push(Participant::EgaroucidAi { name, level, use_book });
        }
        proof {
            assert(ai_slot(out@[n + m], ai_list[m as int]));
            assert forall|q: int| 0 <= q < m implies ai_slot(#[trigger] out@[n + q], ai_list[q]) by {
                assert(out@[n + q] == before[n + q]);
            }
        }
        m += 1;
        assert(ais@ =~= ai_list.skip(m as int));
    }
    out
}

/// The first standing of the player named `name`, if any.
pub open spec fn find_stat(stats: Seq<PlayerStat>, name: Seq<char>) -> Option<int> {
    if exists|i: int| 0 <= i < stats.len() && (#[trigger] stats[i]).player_name@ == name {
        Some(
            choose|i: int|
                0 <= i < stats.len() && (#[trigger] stats[i]).player_name@ == name && forall|j: int|
                    0 <= j < i ==> (#[trigger] stats[j]).player_name@ != name,
        )
    } else {
        None
    }
}

/// The standings with the entry of `name` (if any) changed by `ds` in
/// score, `dw` in wins and `dl` in losses.
pub open spec fn credit(stats: Seq<PlayerStat>, name: Seq<char>, ds: int, dw: int, dl: int) -> Seq<PlayerStat> {
    match find_stat(stats, name) {
        Some(i) => stats.update(
            i,
            PlayerStat {
                score: (stats[i].score + ds) as i32,
                wins: (stats[i].wins + dw) as u32,
                loses: (stats[i].loses + dl) as u32,
                ..stats[i]
            },
        ),
        None => stats,
    }
}

/// The standings after a game: the winner gains a point and a win, the
/// loser loses a point and gains a loss; a tie changes nothing.
pub open spec fn standings_after(stats: Seq<PlayerStat>, res: MatchResult) -> Seq<PlayerStat> {
    match res.winner_color {
        Some(c) => if c == Color::Black {
            credit(credit(stats, res.black_name@, 1, 1, 0), res.white_name@, -1, 0, 1)
        } else {
            credit(credit(stats, res.white_name@, 1, 1, 0), res.black_name@, -1, 0, 1)
        },
        None => stats,
    }
}

/// Standings that a game can change without overflow.
pub open spec fn stats_in_range(stats: Seq<PlayerStat>) -> bool {
    forall|i: int|
        0 <= i < stats.len() ==> i32::MIN < (#[trigger] stats[i]).score < i32::MAX && stats[i].wins
            < u32::MAX && stats[i].loses < u32::MAX
}

/// The result of a game from its first player's side: `win` when it is
/// the winner (a winner other than Black counts as White), `lose`
/// otherwise, `draw` without a winner.
pub open spec fn result_text_for(name1: Seq<char>, res: MatchResult) -> Seq<char> {
    match res.winner_color {
        Some(c) => if (c == Color::Black && name1 == res.black_name@) || (c != Color::Black && name1
            == res.white_name@) {
            "win"@
        } else {
            "lose"@
        },
        None => "draw"@,
    }
}

/// `x` placed after every standing whose score is not below its own.
pub open spec fn insert_by_score(sorted: Seq<PlayerStat>, x: PlayerStat) -> Seq<PlayerStat> {
    let k = first_below(sorted, x.score, 0);
    sorted.take(k) + seq![x] + sorted.skip(k)
}

/// The first position from `from` on whose score is below `score`, or the
/// length.
pub open spec fn first_below(s: Seq<PlayerStat>, score: i32, from: int) -> int
    decreases s.len() - from,
{
    if from >= s.len() || from < 0 {
        s.len() as int
    } else if s[from].score < score {
        from
    } else {
        first_below(s, score, from + 1)
    }
}

/// The standings ordered by score, highest first; equal scores keep
/// their order.
pub open spec fn by_score(s: Seq<PlayerStat>) -> Seq<PlayerStat>
    decreases s.len(),
{
    if s.len() == 0 {
        s
    } else {
        insert_by_score(by_score(s.drop_last()), s.last())
    }
}

/// Whether one of `names` is `n`.
pub open spec fn named_in(names: Seq<String>, n: String) -> bool {
    exists|q: int| 0 <= q < names.len() && names[q] == n
}

/// The running tally of a tournament: standings and game records.
pub struct TournamentTally {
    pub stats: Vec<PlayerStat>,
    pub details: Vec<TournamentMatchDetail>,
}

fn find_stat_index(stats: &Vec<PlayerStat>, name: &str) -> (r: Option<usize>)
    ensures
        match r {
            Some(i) => find_stat(stats@, name@) == Some(i as int) && i < stats@.len(),
            None => find_stat(stats@, name@) is None,
        },
{
    let mut i: usize = 0;
    while i < stats.len()
        invariant
            i <= stats@.len(),
            forall|j: int| 0 <= j < i ==> (#[trigger] stats@[j]).player_name@ != name@,
        decreases stats.len() - i,
    {
        if str_eq(stats[i].player_name.as_str(), name) {
            assert(find_stat(stats@, name@) == Some(i as int));
            return Some(i);
        }
        i += 1;
    }
    None
}

fn apply_credit(stats: &mut Vec<PlayerStat>, name: &str, ds: i32, dw: u32, dl: u32)
    requires
        -1 <= ds <= 1,
        dw <= 1,
        dl <= 1,
        find_stat(old(stats)@, name@) matches Some(i) ==> i32::MIN <= old(stats)@[i].score + ds
            <= i32::MAX && old(stats)@[i].wins + dw <= u32::MAX && old(stats)@[i].loses + dl
            <= u32::MAX,
    ensures
        final(stats)@ == credit(old(stats)@, name@, ds as int, dw as int, dl as int),
{
    match find_stat_index(stats, name) {
        Some(i) => {
            let mut st = stats[i].duplicate();
            st.score = st.score + ds;
            st.wins = st.wins + dw;
            st.loses = st.loses + dl;
            stats.set(i, st);
        },
        None => {},
    }
}

impl TournamentTally {
    /// Zero standings for each of the names (a name listed twice gets one
    /// standing), and no games yet.
    pub fn new(names: &Vec<String>) -> (r: TournamentTally)
        ensures
            r.details@.len() == 0,
            forall|i: int| 0 <= i < r.stats@.len() ==> (#[trigger] r.stats@[i]).score == 0 && r.stats@[i].wins == 0 && r.stats@[i].loses == 0,
            forall|k: int| 0 <= k < names@.len() ==> find_stat(r.stats@, (#[trigger] names@[k])@) is Some,
            forall|i: int| 0 <= i < r.stats@.len() ==> named_in(names@, (#[trigger] r.stats@[i]).player_name),
            forall|i: int, j: int| 0 <= i < j < r.stats@.len() ==> r.stats@[i].player_name@ != r.stats@[j].player_name@,
    {
        let mut stats: Vec<PlayerStat> = Vec::new();
        let mut k: usize = 0;
        while k < names.len()
            invariant
                k <= names@.len(),
                forall|i: int| 0 <= i < stats@.len() ==> (#[trigger] stats@[i]).score == 0 && stats@[i].wins == 0 && stats@[i].loses == 0,
                forall|q: int| 0 <= q < k ==> find_stat(stats@, (#[trigger] names@[q])@) is Some,
                forall|i: int| 0 <= i < stats@.len() ==> named_in(names@, (#[trigger] stats@[i]).player_name),
                forall|i: int, j: int| 0 <= i < j < stats@.len() ==> stats@[i].player_name@ != stats@[j].player_name@,
            decreases names.len() - k,
        {
            let ghost before = stats@;
            match find_stat_index(&stats, names[k].as_str()) {
                Some(_) => {},
                None => {
                    stats.push(PlayerStat { player_name: names[k].clone(), score: 0, wins: 0, loses: 0 });
                    proof {
                        assert forall|q: int| 0 <= q <= k implies find_stat(stats@, (#[trigger] names@[q])@) is Some by {
                            if q < k {
                                let i = choose|i: int| 0 <= i < before.len() && (#[trigger] before[i]).player_name@ == names@[q]@;
                                assert(stats@[i] == before[i]);
                            } else {
                                assert(stats@[stats@.len() - 1].player_name@ == names@[q]@);
                            }
                        }
                        assert forall|i: int| 0 <= i < stats@.len() implies named_in(names@, (#[trigger] stats@[i]).player_name) by {
                            if i < before.len() {
                                assert(stats@[i] == before[i]);
                            } else {
                                assert(stats@[i].player_name == names@[k as int]);
                            }
                        }
                    }
                },
            }
            k += 1;
        }
        TournamentTally { stats, details: Vec::new() }
    }

    /// Records a game between `name1` (first player) and `name2`, played
    /// in round `round`: the standings change by `standings_after`, and the
    /// game record holds the two names, the stone counts from the first
    /// player's side, the result text, and the moves.
    pub fn record_game(&mut self, name1: &str, name2: &str, res: &MatchResult, round: u32)
        requires
            stats_in_range(old(self).stats@),
        ensures
            final(self).stats@ == standings_after(old(self).stats@, *res),
            final(self).details@.len() == old(self).details@.len() + 1,
            final(self).details@.drop_last() == old(self).details@,
            ({
                let d = final(self).details@.last();
                &&& d.p1_name@ == name1@
                &&& d.p2_name@ == name2@
                &&& d.p1_score == if name1@ == res.black_name@ {
                    res.black_stones
                } else {
                    res.white_stones
                }
                &&& d.p2_score == if name1@ == res.black_name@ {
                    res.white_stones
                } else {
                    res.black_stones
                }
                &&& d.result_text@ == result_text_for(name1@, *res)
                &&& d.moves@ == res.moves@
                &&& d.round_index == round
            }),
    {
        let first_is_black = str_eq(name1, res.black_name.as_str());
        let (p1_score, p2_score) = if first_is_black {
            (res.black_stones, res.white_stones)
        } else {
            (res.white_stones, res.black_stones)
        };
        let res_text = match res.winner_color {
            Some(c) => {
                let won = if c == Color::Black {
                    self.credit_pair(res.black_name.as_str(), res.white_name.as_str());
                    first_is_black
                } else {
                    self.credit_pair(res.white_name.as_str(), res.black_name.as_str());
                    str_eq(name1, res.white_name.as_str())
                };
                if won {
                    String::from_str("win")
                } else {
                    String::from_str("lose")
                }
            },
            None => String::from_str("draw"),
        };
        let ghost before = self.details@;
        self.details.push(
            TournamentMatchDetail {
                p1_name: String::from_str(name1),
                p2_name: String::from_str(name2),
                p1_score,
                p2_score,
                result_text: res_text,
                moves: copy_strings(&res.moves),
                round_index: round,
            },
        );
        assert(self.details@.drop_last() =~= before);
    }

    fn credit_pair(&mut self, winner: &str, loser: &str)
        requires
            stats_in_range(old(self).stats@),
        ensures
            final(self).stats@ == credit(credit(old(self).stats@, winner@, 1, 1, 0), loser@, -1, 0, 1),
            final(self).details == old(self).details,
    {
        let ghost s0 = self.stats@;
        proof {
            lemma_find_stat(s0, winner@);
        }
        apply_credit(&mut self.stats, winner, 1, 1, 0);
        let ghost s1 = self.stats@;
        proof {
            lemma_credit_range(s0, winner@);
            lemma_find_stat(s1, loser@);
            lemma_find_stat(s0, winner@);
            if let Some(i) = find_stat(s1, loser@) {
                assert(s1[i].loses < u32::MAX);
            }
        }
        apply_credit(&mut self.stats, loser, -1, 0, 1);
    }

    /// The standings ordered by score, highest first (equal scores in the
    /// order of the tally).
    pub fn standings(&self) -> (r: Vec<PlayerStat>)
        ensures
            r@ == by_score(self.stats@),
    {
        let mut out: Vec<PlayerStat> = Vec::new();
        let mut k: usize = 0;
        while k < self.stats.len()
            invariant
                k <= self.stats@.len(),
                out@ == by_score(self.stats@.take(k as int)),
            decreases self.stats.len() - k,
        {
            let x = self.stats[k].duplicate();
            let mut pos: usize = 0;
            while pos < out.len() && out[pos].score >= x.score
                invariant
                    pos <= out@.len(),
                    first_below(out@, x.score, 0) == first_below(out@, x.score, pos as int),
                decreases out.len() - pos,
            {
                pos += 1;
            }
            let ghost prev = out@;
            out.insert(pos, x);
            proof {
                assert(self.stats@.take(k + 1).drop_last() =~= self.stats@.take(k as int));
                assert(self.stats@.take(k + 1).last() == self.stats@[k as int]);
                assert(out@ =~= prev.take(pos as int) + seq![x] + prev.skip(pos as int));
            }
            k += 1;
        }
        assert(self.stats@.take(self.stats@.len() as int) =~= self.stats@);
        out
    }

    /// The tournament's record, its standings ordered by score.
    pub fn into_result(self, room_id: String, finished_at_sec: u64) -> (r: RoomTournamentResult)
        ensures
            r.room_id == room_id,
            r.finished_at_sec == finished_at_sec,
            r.stats@ == by_score(self.stats@),
            r.match_matrix == self.details,
    {
        let stats = self.standings();
        RoomTournamentResult { room_id, finished_at_sec, stats, match_matrix: self.details }
    }
}

proof fn first_stat_witness(s: Seq<PlayerStat>, name: Seq<char>, from: int) -> (w: int)
    requires
        0 <= from <= s.len(),
        forall|j: int| 0 <= j < from ==> (#[trigger] s[j]).player_name@ != name,
        exists|i: int| from <= i < s.len() && (#[trigger] s[i]).player_name@ == name,
    ensures
        0 <= w < s.len(),
        s[w].player_name@ == name,
        forall|j: int| 0 <= j < w ==> (#[trigger] s[j]).player_name@ != name,
    decreases s.len() - from,
{
    if s[from].player_name@ == name {
        from
    } else {
        let i = choose|i: int| from <= i < s.len() && (#[trigger] s[i]).player_name@ == name;
        assert(i > from);
        first_stat_witness(s, name, from + 1)
    }
}

/// What `find_stat` gives: the first standing of the name, or none.
pub proof fn lemma_find_stat(s: Seq<PlayerStat>, name: Seq<char>)
    ensures
        match find_stat(s, name) {
            Some(i) => 0 <= i < s.len() && s[i].player_name@ == name && forall|j: int|
                0 <= j < i ==> (#[trigger] s[j]).player_name@ != name,
            None => forall|j: int| 0 <= j < s.len() ==> (#[trigger] s[j]).player_name@ != name,
        },
{
    if exists|i: int| 0 <= i < s.len() && (#[trigger] s[i]).player_name@ == name {
        let w = first_stat_witness(s, name, 0);
        assert(0 <= w < s.len() && s[w].player_name@ == name && forall|j: int|
            0 <= j < w ==> (#[trigger] s[j]).player_name@ != name);
    }
}

proof fn lemma_credit_range(s: Seq<PlayerStat>, name: Seq<char>)
    requires
        stats_in_range(s),
    ensures
        forall|i: int|
            0 <= i < credit(s, name, 1, 1, 0).len() ==> i32::MIN < (#[trigger] credit(s, name, 1, 1, 0)[i]).score
                && credit(s, name, 1, 1, 0)[i].loses < u32::MAX,
        credit(s, name, 1, 1, 0).len() == s.len(),
{
    lemma_find_stat(s, name);
}

/// The sum of the scores of `s`.
pub open spec fn score_sum(s: Seq<PlayerStat>) -> int
    decreases s.len(),
{
    if s.len() == 0 {
        0
    } else {
        score_sum(s.drop_last()) + s.last().score
    }
}

proof fn lemma_sum_update(s: Seq<PlayerStat>, i: int, x: PlayerStat)
    requires
        0 <= i < s.len(),
    ensures
        score_sum(s.update(i, x)) == score_sum(s) - s[i].score + x.score,
    decreases s.len(),
{
    if i < s.len() - 1 {
        lemma_sum_update(s.drop_last(), i, x);
        assert(s.update(i, x).drop_last() =~= s.drop_last().update(i, x));
    } else {
        assert(s.update(i, x).drop_last() =~= s.drop_last());
    }
}

proof fn lemma_credit_sum(s: Seq<PlayerStat>, name: Seq<char>, ds: int, dw: int, dl: int)
    requires
        find_stat(s, name) is Some,
        i32::MIN <= s[find_stat(s, name)->0].score + ds <= i32::MAX,
    ensures
        score_sum(credit(s, name, ds, dw, dl)) == score_sum(s) + ds,
        find_stat(credit(s, name, ds, dw, dl), name) is Some,
{
    lemma_find_stat(s, name);
    let i = find_stat(s, name)->0;
    let x = PlayerStat {
        score: (s[i].score + ds) as i32,
        wins: (s[i].wins + dw) as u32,
        loses: (s[i].loses + dl) as u32,
        ..s[i]
    };
    lemma_sum_update(s, i, x);
    let t = s.update(i, x);
    assert(t[i].player_name@ == name);
    lemma_find_stat(t, name);
}

/// In a tournament every decided game gives the winner one point and takes
/// one from the loser: when both players have standings, the sum of the
/// scores does not change.
pub proof fn law_scores_zero_sum(stats: Seq<PlayerStat>, res: MatchResult)
    requires
        stats_in_range(stats),
        find_stat(stats, res.black_name@) is Some,
        find_stat(stats, res.white_name@) is Some,
    ensures
        score_sum(standings_after(stats, res)) == score_sum(stats),
{
    match res.winner_color {
        Some(c) => {
            let (w, l) = if c == Color::Black {
                (res.black_name@, res.white_name@)
            } else {
                (res.white_name@, res.black_name@)
            };
            lemma_find_stat(stats, w);
            lemma_find_stat(stats, l);
            lemma_credit_sum(stats, w, 1, 1, 0);
            let s1 = credit(stats, w, 1, 1, 0);
            lemma_credit_range(stats, w);
            let il = find_stat(stats, l)->0;
            lemma_find_stat(s1, l);
            assert(s1[il].player_name@ == l);
            lemma_credit_sum(s1, l, -1, 0, 1);
        },
        None => {},
    }
}

proof fn lemma_first_below(s: Seq<PlayerStat>, score: i32, from: int)
    requires
        0 <= from <= s.len(),
    ensures
        from <= first_below(s, score, from) <= s.len(),
        forall|j: int| from <= j < first_below(s, score, from) ==> (#[trigger] s[j]).score >= score,
        first_below(s, score, from) < s.len() ==> s[first_below(s, score, from)].score < score,
    decreases s.len() - from,
{
    if from < s.len() && s[from].score >= score {
        lemma_first_below(s, score, from + 1);
    }
}

/// The final standings hold exactly the standings of the tally: ordering
/// by score adds none, drops none and changes none.
pub proof fn law_standings_same_entries(s: Seq<PlayerStat>)
    ensures
        by_score(s).to_multiset() == s.to_multiset(),
    decreases s.len(),
{
    if s.len() > 0 {
        law_standings_same_entries(s.drop_last());
        let t = by_score(s.drop_last());
        let x = s.last();
        lemma_first_below(t, x.score, 0);
        let k = first_below(t, x.score, 0);
        assert(insert_by_score(t, x) =~= t.insert(k, x));
        vstd::seq_lib::to_multiset_insert(t, k, x);
        assert(s =~= s.drop_last().push(x));
        vstd::seq_lib::to_multiset_build(s.drop_last(), x);
    }
}

/// Standings ordered by score, highest first.
pub open spec fn sorted_by_score(s: Seq<PlayerStat>) -> bool {
    forall|i: int, j: int| 0 <= i < j < s.len() ==> s[i].score >= s[j].score
}

/// The final standings are ordered by score, highest first, and hold as
/// many entries as the tally.
pub proof fn law_standings_sorted(s: Seq<PlayerStat>)
    ensures
        sorted_by_score(by_score(s)),
        by_score(s).len() == s.len(),
    decreases s.len(),
{
    if s.len() > 0 {
        law_standings_sorted(s.drop_last());
        let t = by_score(s.drop_last());
        let x = s.last();
        lemma_first_below(t, x.score, 0);
        let k = first_below(t, x.score, 0);
        let r = t.take(k) + seq![x] + t.skip(k);
        assert(r.len() == t.len() + 1);
        assert forall|i: int, j: int| 0 <= i < j < r.len() implies r[i].score >= r[j].score by {
            if j < k {
                assert(r[i] == t[i] && r[j] == t[j]);
            } else if j == k {
                assert(r[i] == t[i]);
            } else if i < k {
                assert(r[i] == t[i] && r[j] == t[j - 1]);
                assert(t[k].score < x.score);
                assert(t[k].score >= t[j - 1].score);
            } else if i == k {
                assert(r[j] == t[j - 1]);
                assert(t[k].score < x.score);
                if j - 1 > k {
                    assert(t[k].score >= t[j - 1].score);
                }
            } else {
                assert(r[i] == t[i - 1] && r[j] == t[j - 1]);
            }
        }
    }
}

/// What `find_room` gives: the first room with the id, or none.
pub proof fn lemma_find_room(rooms: Seq<Room>, room_id: Seq<char>)
    ensures
        match find_room(rooms, room_id) {
            Some(i) => 0 <= i < rooms.len() && rooms[i].room_id@ == room_id && forall|j: int|
                0 <= j < i ==> (#[trigger] rooms[j]).room_id@ != room_id,
            None => forall|j: int| 0 <= j < rooms.len() ==> (#[trigger] rooms[j]).room_id@ != room_id,
        },
{
    if exists|i: int| 0 <= i < rooms.len() && (#[trigger] rooms[i]).room_id@ == room_id {
        let p = |r: Room| r.room_id@ == room_id;
        assert(exists|i: int| 0 <= i < rooms.len() && p(#[trigger] rooms[i]));
        let w = crate::search::lemma_first_witness(rooms, p, 0);
        assert(0 <= w < rooms.len() && rooms[w].room_id@ == room_id && forall|j: int|
            0 <= j < w ==> (#[trigger] rooms[j]).room_id@ != room_id);
    }
}

/// What `find_ai` gives: the first computer player with the name, or none.
pub proof fn lemma_find_ai(ais: Seq<(String, i32, bool)>, name: Seq<char>)
    ensures
        match find_ai(ais, name) {
            Some(i) => 0 <= i < ais.len() && ais[i].0@ == name && forall|j: int|
                0 <= j < i ==> (#[trigger] ais[j]).0@ != name,
            None => forall|j: int| 0 <= j < ais.len() ==> (#[trigger] ais[j]).0@ != name,
        },
{
    if exists|i: int| 0 <= i < ais.len() && (#[trigger] ais[i]).0@ == name {
        let p = |a: (String, i32, bool)| a.0@ == name;
        assert(exists|i: int| 0 <= i < ais.len() && p(#[trigger] ais[i]));
        let w = crate::search::lemma_first_witness(ais, p, 0);
        assert(0 <= w < ais.len() && ais[w].0@ == name && forall|j: int|
            0 <= j < w ==> (#[trigger] ais[j]).0@ != name);
    }
}

} // verus!
