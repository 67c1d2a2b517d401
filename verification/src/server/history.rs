//! The record of finished matches and tournaments.
use vstd::prelude::*;
use crate::protocol::proto::{copy_stats, PlayerStat};
use crate::text::{copy_strings, starts_with};

verus! {

/// A finished match.
#[derive(Debug, Clone)]
pub struct FinishedMatchInfo {
    pub match_id: String,
    pub mode: String,
    pub black_name: String,
    pub white_name: String,
    pub winner_color: Option<String>,
    pub black_stones: u32,
    pub white_stones: u32,
    pub reason: String,
    pub moves: Vec<String>,
    pub finished_at_sec: u64,
}

/// One game of a tournament, seen from its first player.
#[derive(Debug, Clone)]
pub struct TournamentMatchDetail {
    pub p1_name: String,
    pub p2_name: String,
    pub p1_score: u32,
    pub p2_score: u32,
    pub result_text: String,
    pub moves: Vec<String>,
    pub round_index: u32,
}

/// The outcome of a room's tournament.
#[derive(Debug, Clone)]
pub struct RoomTournamentResult {
    pub room_id: String,
    pub finished_at_sec: u64,
    pub stats: Vec<PlayerStat>,
    pub match_matrix: Vec<TournamentMatchDetail>,
}

/// Two match records with the same contents.
pub open spec fn same_match(a: FinishedMatchInfo, b: FinishedMatchInfo) -> bool {
    &&& a.match_id == b.match_id
    &&& a.mode == b.mode
    &&& a.black_name == b.black_name
    &&& a.white_name == b.white_name
    &&& a.winner_color == b.winner_color
    &&& a.black_stones == b.black_stones
    &&& a.white_stones == b.white_stones
    &&& a.reason == b.reason
    &&& a.moves@ == b.moves@
    &&& a.finished_at_sec == b.finished_at_sec
}

/// Two lists of match records with the same contents, entry by entry.
pub open spec fn same_matches(a: Seq<FinishedMatchInfo>, b: Seq<FinishedMatchInfo>) -> bool {
    a.len() == b.len() && forall|i: int| 0 <= i < a.len() ==> #[trigger] same_match(a[i], b[i])
}

/// Two game records with the same contents.
pub open spec fn same_detail(a: TournamentMatchDetail, b: TournamentMatchDetail) -> bool {
    &&& a.p1_name == b.p1_name
    &&& a.p2_name == b.p2_name
    &&& a.p1_score == b.p1_score
    &&& a.p2_score == b.p2_score
    &&& a.result_text == b.result_text
    &&& a.moves@ == b.moves@
    &&& a.round_index == b.round_index
}

/// Two lists of game records with the same contents, entry by entry.
pub open spec fn same_details(a: Seq<TournamentMatchDetail>, b: Seq<TournamentMatchDetail>) -> bool {
    a.len() == b.len() && forall|i: int| 0 <= i < a.len() ==> #[trigger] same_detail(a[i], b[i])
}

/// Two tournament records with the same contents.
pub open spec fn same_tournament(a: RoomTournamentResult, b: RoomTournamentResult) -> bool {
    &&& a.room_id == b.room_id
    &&& a.finished_at_sec == b.finished_at_sec
    &&& a.stats@ == b.stats@
    &&& same_details(a.match_matrix@, b.match_matrix@)
}

/// Two lists of tournament records with the same contents, entry by entry.
pub open spec fn same_tournaments(a: Seq<RoomTournamentResult>, b: Seq<RoomTournamentResult>) -> bool {
    a.len() == b.len() && forall|i: int| 0 <= i < a.len() ==> #[trigger] same_tournament(a[i], b[i])
}

impl FinishedMatchInfo {
    /// A copy of the record.
    pub fn duplicate(&self) -> (r: FinishedMatchInfo)
        ensures
            same_match(r, *self),
            r.winner_color == self.winner_color,
    {
        FinishedMatchInfo {
            match_id: self.match_id.clone(),
            mode: self.mode.clone(),
            black_name: self.black_name.clone(),
            white_name: self.white_name.clone(),
            winner_color: match &self.winner_color {
                Some(w) => Some(w.clone()),
                None => None,
            },
            black_stones: self.black_stones,
            white_stones: self.white_stones,
            reason: self.reason.clone(),
            moves: copy_strings(&self.moves),
            finished_at_sec: self.finished_at_sec,
        }
    }
}

impl TournamentMatchDetail {
    /// A copy of the record.
    pub fn duplicate(&self) -> (r: TournamentMatchDetail)
        ensures
            same_detail(r, *self),
    {
        TournamentMatchDetail {
            p1_name: self.p1_name.clone(),
            p2_name: self.p2_name.clone(),
            p1_score: self.p1_score,
            p2_score: self.p2_score,
            result_text: self.result_text.clone(),
            moves: copy_strings(&self.moves),
            round_index: self.round_index,
        }
    }
}

/// A copy of a list of game records.
pub fn copy_details(v: &Vec<TournamentMatchDetail>) -> (r: Vec<TournamentMatchDetail>)
    ensures
        same_details(r@, v@),
{
    let mut out: Vec<TournamentMatchDetail> = Vec::new();
    let mut i: usize = 0;
    while i < v.len()
        invariant
            i <= v.len(),
            same_details(out@, v@.take(i as int)),
        decreases v.len() - i,
    {
        out.push(v[i].duplicate());
        i += 1;
        assert(same_details(out@, v@.take(i as int))) by {
            assert forall|k: int| 0 <= k < out@.len() implies #[trigger] same_detail(out@[k], v@.take(i as int)[k]) by {
                if k < out@.len() - 1 {
                    assert(same_detail(out@[k], v@.take(i - 1)[k]));
                }
            }
        }
    }
    assert(v@.take(v.len() as int) =~= v@);
    out
}

impl RoomTournamentResult {
    /// A copy of the record.
    pub fn duplicate(&self) -> (r: RoomTournamentResult)
        ensures
            same_tournament(r, *self),
    {
        RoomTournamentResult {
            room_id: self.room_id.clone(),
            finished_at_sec: self.finished_at_sec,
            stats: copy_stats(&self.stats),
            match_matrix: copy_details(&self.match_matrix),
        }
    }
}

/// How many records of each kind are kept.
pub const HISTORY_LIMIT: usize = 50;

/// `x` put in front of `s`, the oldest entry dropped when that makes more
/// than `HISTORY_LIMIT`.
pub open spec fn push_front_capped<T>(s: Seq<T>, x: T) -> Seq<T> {
    let t = seq![x] + s;
    if t.len() > HISTORY_LIMIT {
        t.drop_last()
    } else {
        t
    }
}

/// The first `limit` entries of `s` (all of them when there are fewer).
pub open spec fn first_n<T>(s: Seq<T>, limit: int) -> Seq<T> {
    if limit < s.len() {
        s.take(limit)
    } else {
        s
    }
}

/// Whether a match was played as part of a room tournament (its mode
/// starts with `Room_`).
pub open spec fn is_room_mode(mode: Seq<char>) -> bool {
    5 <= mode.len() && mode.take(5) == "Room_"@
}

/// The most recent matches and tournaments, newest first.
pub struct MatchHistoryRegistry {
    recent_matches: Vec<FinishedMatchInfo>,
    tournament_results: Vec<RoomTournamentResult>,
}

fn copy_matches(v: &Vec<FinishedMatchInfo>, limit: usize) -> (r: Vec<FinishedMatchInfo>)
    ensures
        same_matches(r@, first_n(v@, limit as int)),
{
    let n = if limit < v.len() {
        limit
    } else {
        v.len()
    };
    let mut out: Vec<FinishedMatchInfo> = Vec::new();
    let mut i: usize = 0;
    while i < n
        invariant
            n <= v.len(),
            n == if limit < v.len() {
                limit as int
            } else {
                v.len() as int
            },
            i <= n,
            same_matches(out@, v@.take(i as int)),
        decreases n - i,
    {
        out.push(v[i].duplicate());
        i += 1;
        assert(same_matches(out@, v@.take(i as int))) by {
            assert forall|k: int| 0 <= k < out@.len() implies #[trigger] same_match(out@[k], v@.take(i as int)[k]) by {
                if k < out@.len() - 1 {
                    assert(same_match(out@[k], v@.take(i - 1)[k]));
                }
            }
        }
    }
    assert(v@.take(v.len() as int) =~= v@);
    assert(v@.take(n as int) =~= first_n(v@, limit as int));
    out
}

fn copy_tournaments(v: &Vec<RoomTournamentResult>, limit: usize) -> (r: Vec<RoomTournamentResult>)
    ensures
        same_tournaments(r@, first_n(v@, limit as int)),
{
    let n = if limit < v.len() {
        limit
    } else {
        v.len()
    };
    let mut out: Vec<RoomTournamentResult> = Vec::new();
    let mut i: usize = 0;
    while i < n
        invariant
            n <= v.len(),
            n == if limit < v.len() {
                limit as int
            } else {
                v.len() as int
            },
            i <= n,
            same_tournaments(out@, v@.take(i as int)),
        decreases n - i,
    {
        out.push(v[i].duplicate());
        i += 1;
        assert(same_tournaments(out@, v@.take(i as int))) by {
            assert forall|k: int| 0 <= k < out@.len() implies #[trigger] same_tournament(out@[k], v@.take(i as int)[k]) by {
                if k < out@.len() - 1 {
                    assert(same_tournament(out@[k], v@.take(i - 1)[k]));
                }
            }
        }
    }
    assert(v@.take(v.len() as int) =~= v@);
    assert(v@.take(n as int) =~= first_n(v@, limit as int));
    out
}

impl MatchHistoryRegistry {
    /// The recorded matches, newest first.
    pub closed spec fn recent(&self) -> Seq<FinishedMatchInfo> {
        self.recent_matches@
    }

    /// The recorded tournaments, newest first.
    pub closed spec fn tournaments(&self) -> Seq<RoomTournamentResult> {
        self.tournament_results@
    }

    /// An empty record.
    pub fn new() -> (r: MatchHistoryRegistry)
        ensures
            r.recent() == Seq::<FinishedMatchInfo>::empty(),
            r.tournaments() == Seq::<RoomTournamentResult>::empty(),
    {
        MatchHistoryRegistry { recent_matches: Vec::new(), tournament_results: Vec::new() }
    }

    /// Records a finished match, unless it belongs to a room tournament
    /// (those are kept with the tournament).
    pub fn record_match(&mut self, match_info: FinishedMatchInfo)
        ensures
            is_room_mode(match_info.mode@) ==> final(self).recent() == old(self).recent(),
            !is_room_mode(match_info.mode@) ==> final(self).recent() == push_front_capped(
                old(self).recent(),
                match_info,
            ),
            final(self).tournaments() == old(self).tournaments(),
    {
        let room = starts_with(match_info.mode.as_str(), "Room_");
        proof {
            assert(match_info.mode@.subrange(0, "Room_"@.len() as int) =~= match_info.mode@.take(
                "Room_"@.len() as int,
            ));
            reveal_strlit("Room_");
        }
        if !room {
            let ghost before = self.recent_matches@;
            let ghost info = match_info;
            self.recent_matches.insert(0, match_info);
            assert(self.recent_matches@ =~= seq![info] + before);
            if self.recent_matches.len() > HISTORY_LIMIT {
                self.recent_matches.pop();
                assert(self.recent_matches@ =~= (seq![info] + before).drop_last());
            }
        }
    }

    /// Records a finished tournament.
    pub fn record_tournament(&mut self, tournament: RoomTournamentResult)
        ensures
            final(self).tournaments() == push_front_capped(old(self).tournaments(), tournament),
            final(self).recent() == old(self).recent(),
    {
        let ghost before = self.tournament_results@;
        let ghost t = tournament;
        self.tournament_results.insert(0, tournament);
        assert(self.tournament_results@ =~= seq![t] + before);
        if self.tournament_results.len() > HISTORY_LIMIT {
            self.tournament_results.pop();
            assert(self.tournament_results@ =~= (seq![t] + before).drop_last());
        }
    }

    /// The recorded matches, newest first.
    pub fn list_matches(&self) -> (r: Vec<FinishedMatchInfo>)
        ensures
            same_matches(r@, self.recent()),
    {
        copy_matches(&self.recent_matches, self.recent_matches.len())
    }

    /// The recorded tournaments, newest first.
    pub fn list_tournaments(&self) -> (r: Vec<RoomTournamentResult>)
        ensures
            same_tournaments(r@, self.tournaments()),
    {
        copy_tournaments(&self.tournament_results, self.tournament_results.len())
    }

    /// The newest `limit` recorded matches.
    pub fn list_matches_limited(&self, limit: usize) -> (r: Vec<FinishedMatchInfo>)
        ensures
            same_matches(r@, first_n(self.recent(), limit as int)),
    {
        copy_matches(&self.recent_matches, limit)
    }

    /// The newest `limit` recorded tournaments.
    pub fn list_tournaments_limited(&self, limit: usize) -> (r: Vec<RoomTournamentResult>)
        ensures
            same_tournaments(r@, first_n(self.tournaments(), limit as int)),
    {
        copy_tournaments(&self.tournament_results, limit)
    }
}

/// The record never holds more than `HISTORY_LIMIT` entries of a kind:
/// recording into a record within the limit keeps it within the limit.
pub proof fn law_history_bounded<T>(s: Seq<T>, x: T)
    requires
        s.len() <= HISTORY_LIMIT,
    ensures
        push_front_capped(s, x).len() <= HISTORY_LIMIT,
        push_front_capped(s, x)[0] == x,
        forall|i: int|
            0 < i < push_front_capped(s, x).len() ==> #[trigger] push_front_capped(s, x)[i]
                == s[i - 1],
{
}

/// Listing gives back the records as they were recorded: a list with the
/// same contents as the record holds, entry by entry, the same id, mode,
/// names, winner, stone counts, reason, moves and finishing time.
pub proof fn law_listing_keeps_records(listed: Seq<FinishedMatchInfo>, recorded: Seq<FinishedMatchInfo>)
    requires
        same_matches(listed, recorded),
    ensures
        listed.len() == recorded.len(),
        forall|i: int|
            0 <= i < listed.len() ==> {
                let a = #[trigger] listed[i];
                let b = recorded[i];
                &&& a.match_id == b.match_id
                &&& a.mode == b.mode
                &&& a.black_name == b.black_name
                &&& a.white_name == b.white_name
                &&& a.winner_color == b.winner_color
                &&& a.black_stones == b.black_stones
                &&& a.white_stones == b.white_stones
                &&& a.reason == b.reason
                &&& a.moves@ == b.moves@
                &&& a.finished_at_sec == b.finished_at_sec
            },
{
    assert forall|i: int| 0 <= i < listed.len() implies {
        let a = #[trigger] listed[i];
        let b = recorded[i];
        &&& a.match_id == b.match_id
        &&& a.mode == b.mode
        &&& a.black_name == b.black_name
        &&& a.white_name == b.white_name
        &&& a.winner_color == b.winner_color
        &&& a.black_stones == b.black_stones
        &&& a.white_stones == b.white_stones
        &&& a.reason == b.reason
        &&& a.moves@ == b.moves@
        &&& a.finished_at_sec == b.finished_at_sec
    } by {
        assert(same_match(listed[i], recorded[i]));
    }
}

/// A record listed right after it was recorded is the newest one, with
/// the winner and the rest as recorded.
pub proof fn law_recorded_match_listed_first(
    listed: Seq<FinishedMatchInfo>,
    before: Seq<FinishedMatchInfo>,
    info: FinishedMatchInfo,
)
    requires
        before.len() <= HISTORY_LIMIT,
        same_matches(listed, push_front_capped(before, info)),
    ensures
        listed.len() > 0,
        listed[0].winner_color == info.winner_color,
        listed[0].match_id == info.match_id,
        listed[0].black_stones == info.black_stones,
        listed[0].white_stones == info.white_stones,
        listed[0].reason == info.reason,
{
    law_history_bounded(before, info);
    assert(same_match(listed[0], push_front_capped(before, info)[0]));
}

} // verus!
