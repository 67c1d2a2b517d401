//! The free-match queue: waiting players are paired as soon as two of them
//! are not kept apart by a cooldown from their last game together.
use vstd::prelude::*;
use std::collections::VecDeque;
use crate::game::color::{random_coin, PreferredColor};
use crate::text::{decimal, push_decimal, push_str, str_eq};
use super::match_runner::Participant;
use super::session::ActivePlayerSession;

verus! {

/// A waiting player as the lobby lists it.
#[derive(Debug, Clone)]
pub struct FreeMatchClientInfo {
    pub client_id: String,
    pub player_name: String,
    pub assigned_time_ms: i32,
    pub cooldown_sec: u64,
}

/// A player waiting for a free match.
pub struct WaitingSession {
    pub id: String,
    pub session: ActivePlayerSession,
    pub assigned_time_ms: i32,
    pub pref_color: PreferredColor,
    pub cooldown_sec: u64,
}

/// Two players who may not be paired again before `available_at`
/// (milliseconds on the server's clock).
#[derive(Debug, Clone)]
pub struct CooldownEntry {
    pub p1_name: String,
    pub p2_name: String,
    pub available_at: u64,
}

/// Whether the entry is about the players named `a` and `b`, in either
/// order.
pub open spec fn same_pair(e: CooldownEntry, a: Seq<char>, b: Seq<char>) -> bool {
    (e.p1_name@ == a && e.p2_name@ == b) || (e.p1_name@ == b && e.p2_name@ == a)
}

impl CooldownEntry {
    /// A copy of the entry.
    pub fn duplicate(&self) -> (r: CooldownEntry)
        ensures
            r == *self,
    {
        CooldownEntry {
            p1_name: self.p1_name.clone(),
            p2_name: self.p2_name.clone(),
            available_at: self.available_at,
        }
    }

    /// Whether the entry is about the players `name1` and `name2`, in
    /// either order.
    pub fn is_pair(&self, name1: &str, name2: &str) -> (r: bool)
        ensures
            r == same_pair(*self, name1@, name2@),
    {
        (str_eq(self.p1_name.as_str(), name1) && str_eq(self.p2_name.as_str(), name2)) || (str_eq(
            self.p1_name.as_str(),
            name2,
        ) && str_eq(self.p2_name.as_str(), name1))
    }
}

/// Whether `a` and `b` were paired too recently to meet again at `now`.
pub open spec fn in_cooldown(cd: Seq<CooldownEntry>, a: Seq<char>, b: Seq<char>, now: u64) -> bool {
    exists|k: int| 0 <= k < cd.len() && same_pair(#[trigger] cd[k], a, b) && now < cd[k].available_at
}

/// The name of a waiting player.
pub open spec fn waiting_name(w: WaitingSession) -> Seq<char> {
    w.session.handle.player_name@
}

/// Whether waiting players i and j may be paired at `now`.
pub open spec fn pair_allowed(ready: Seq<WaitingSession>, cd: Seq<CooldownEntry>, now: u64, i: int, j: int) -> bool {
    !in_cooldown(cd, waiting_name(ready[i]), waiting_name(ready[j]), now)
}

/// `s` without the entries whose mark is set.
pub open spec fn keep_unmarked<T>(s: Seq<T>, marks: Seq<bool>) -> Seq<T>
    decreases s.len(),
{
    if s.len() == 0 {
        s
    } else {
        let rest = keep_unmarked(s.drop_last(), marks.drop_last());
        if marks.len() == s.len() && marks.last() {
            rest
        } else {
            rest.push(s.last())
        }
    }
}

/// The entries of `s` whose player is not named `name`.
pub open spec fn without_player(s: Seq<WaitingSession>, name: Seq<char>) -> Seq<WaitingSession>
    decreases s.len(),
{
    if s.len() == 0 {
        s
    } else {
        let rest = without_player(s.drop_last(), name);
        if waiting_name(s.last()) == name {
            rest
        } else {
            rest.push(s.last())
        }
    }
}

/// The cooldowns that do not name `name`.
pub open spec fn cooldowns_without(s: Seq<CooldownEntry>, name: Seq<char>) -> Seq<CooldownEntry>
    decreases s.len(),
{
    if s.len() == 0 {
        s
    } else {
        let rest = cooldowns_without(s.drop_last(), name);
        if s.last().p1_name@ == name || s.last().p2_name@ == name {
            rest
        } else {
            rest.push(s.last())
        }
    }
}

/// The lobby's view of a waiting player.
pub open spec fn info_of(w: WaitingSession, i: FreeMatchClientInfo) -> bool {
    &&& i.client_id@ == w.id@
    &&& i.player_name@ == waiting_name(w)
    &&& i.assigned_time_ms == w.assigned_time_ms
    &&& i.cooldown_sec == w.cooldown_sec
}

/// Who takes Black when the first player asked for `p1` and the second for
/// `p2`: `true` for the first. A player asking for Black gets it unless the
/// other one also does; otherwise a player asking for White gets White
/// (the first one, when both ask for it); two `Random` requests are settled
/// by `coin`.
pub open spec fn first_takes_black(p1: PreferredColor, p2: PreferredColor, coin: bool) -> bool {
    match (p1, p2) {
        (PreferredColor::Black, PreferredColor::White) => true,
        (PreferredColor::White, PreferredColor::Black) => false,
        (PreferredColor::Black, _) => true,
        (_, PreferredColor::Black) => false,
        (PreferredColor::White, _) => false,
        (_, PreferredColor::White) => true,
        _ => coin,
    }
}

/// Colour assignment of a pairing; see `first_takes_black`.
pub fn first_player_is_black(p1: PreferredColor, p2: PreferredColor, coin: bool) -> (r: bool)
    ensures
        r == first_takes_black(p1, p2, coin),
{
    match (p1, p2) {
        (PreferredColor::Black, PreferredColor::White) => true,
        (PreferredColor::White, PreferredColor::Black) => false,
        (PreferredColor::Black, _) => true,
        (_, PreferredColor::Black) => false,
        (PreferredColor::White, _) => false,
        (_, PreferredColor::White) => true,
        _ => coin,
    }
}

/// What the queue needs to know of a pair when its game is over: the two
/// names (first and second in the queue), the time allowed (the smaller of
/// the two), the longer of the two cooldowns, and each one's cooldown.
#[derive(Debug, Clone)]
pub struct PairingInfo {
    pub p1_name: String,
    pub p2_name: String,
    pub assigned_time_ms: i32,
    pub max_cooldown_sec: u64,
    pub s1_cooldown_sec: u64,
    pub s2_cooldown_sec: u64,
}

/// Two players taken from the queue for a game.
pub struct Pairing {
    pub black: ActivePlayerSession,
    pub white: ActivePlayerSession,
    pub info: PairingInfo,
}

/// How many cooldowns at the front of `cd` have run out at `now`.
pub open spec fn expired_prefix(cd: Seq<CooldownEntry>, now: u64) -> nat
    decreases cd.len(),
{
    if cd.len() > 0 && now >= cd[0].available_at {
        1 + expired_prefix(cd.drop_first(), now)
    } else {
        0
    }
}

/// Pair (i, j) comes before pair (i2, j2) in the search order.
pub open spec fn pair_before(i: int, j: int, i2: int, j2: int) -> bool {
    i < i2 || (i == i2 && j < j2)
}

/// The first pair in the search order (by the first player, then the
/// second) that may play at `now`, if any.
pub open spec fn is_first_allowed_pair(ready: Seq<WaitingSession>, cd: Seq<CooldownEntry>, now: u64, i: int, j: int) -> bool {
    &&& 0 <= i < j < ready.len()
    &&& pair_allowed(ready, cd, now, i, j)
    &&& forall|i2: int, j2: int|
        0 <= i2 < j2 < ready.len() && pair_before(i2, j2, i, j) ==> !pair_allowed(ready, cd, now, i2, j2)
}

/// No two waiting players may play at `now`.
pub open spec fn no_allowed_pair(ready: Seq<WaitingSession>, cd: Seq<CooldownEntry>, now: u64) -> bool {
    forall|i: int, j: int| 0 <= i < j < ready.len() ==> !pair_allowed(ready, cd, now, i, j)
}

/// The outcome of pairing on the waiting list `rl` (closed connections
/// already dropped): no pair and the list kept, or the first allowed pair
/// taken out, its colours settled by `first_takes_black`.
pub open spec fn pairing_outcome(
    rl: Seq<WaitingSession>,
    after: Seq<WaitingSession>,
    cd: Seq<CooldownEntry>,
    now: u64,
    coin: bool,
    r: Option<Pairing>,
) -> bool {
    match r {
        None => after == rl && no_allowed_pair(rl, cd, now),
        Some(p) => exists|i: int, j: int|
            {
                &&& is_first_allowed_pair(rl, cd, now, i, j)
                &&& after == rl.remove(j).remove(i)
                &&& p.info.p1_name@ == waiting_name(rl[i])
                &&& p.info.p2_name@ == waiting_name(rl[j])
                &&& p.info.assigned_time_ms == if rl[i].assigned_time_ms < rl[j].assigned_time_ms {
                    rl[i].assigned_time_ms
                } else {
                    rl[j].assigned_time_ms
                }
                &&& p.info.max_cooldown_sec == if rl[i].cooldown_sec > rl[j].cooldown_sec {
                    rl[i].cooldown_sec
                } else {
                    rl[j].cooldown_sec
                }
                &&& p.info.s1_cooldown_sec == rl[i].cooldown_sec
                &&& p.info.s2_cooldown_sec == rl[j].cooldown_sec
                &&& if first_takes_black(rl[i].pref_color, rl[j].pref_color, coin) {
                    p.black == rl[i].session && p.white == rl[j].session
                } else {
                    p.black == rl[j].session && p.white == rl[i].session
                }
            },
    }
}

/// The entry under which a player comes back after a free match: id
/// `free_re_<name>`, the pair's time, no colour preference, and its own
/// cooldown (the first player's when its name is the first name).
pub open spec fn requeued_as(w: WaitingSession, sess: ActivePlayerSession, info: PairingInfo) -> bool {
    let name = sess.handle.player_name@;
    &&& w.id@ == "free_re_"@ + name
    &&& w.session == sess
    &&& w.assigned_time_ms == info.assigned_time_ms
    &&& w.pref_color == PreferredColor::Random
    &&& w.cooldown_sec == if name == info.p1_name@ {
        info.s1_cooldown_sec
    } else {
        info.s2_cooldown_sec
    }
}

/// The id of the n-th player entering the queue: `free_n`.
pub open spec fn queue_id_text(n: nat) -> Seq<char> {
    "free_"@ + decimal(n)
}

/// The free-match queue: waiting players, the cooldowns of recent pairs
/// (oldest first), and the number of the next queue id.
pub struct FreeMatchQueue {
    ready_list: Vec<WaitingSession>,
    cooldown_queue: VecDeque<CooldownEntry>,
    next_id: u64,
}

impl FreeMatchQueue {
    /// The waiting players, in the order they came.
    pub closed spec fn ready(&self) -> Seq<WaitingSession> {
        self.ready_list@
    }

    /// The cooldowns of recent pairs, oldest first.
    pub closed spec fn cooldowns(&self) -> Seq<CooldownEntry> {
        self.cooldown_queue@
    }

    /// The number of the next queue id.
    pub closed spec fn next_number(&self) -> u64 {
        self.next_id
    }

    /// Whether another id can still be numbered.
    pub fn ids_available(&self) -> (r: bool)
        ensures
            r == (self.next_number() < u64::MAX),
    {
        self.next_id < u64::MAX
    }

    /// An empty queue; the first id is `free_1`.
    pub fn new() -> (r: FreeMatchQueue)
        ensures
            r.ready() == Seq::<WaitingSession>::empty(),
            r.cooldowns() == Seq::<CooldownEntry>::empty(),
            r.next_number() == 1,
    {
        FreeMatchQueue { ready_list: Vec::new(), cooldown_queue: VecDeque::new(), next_id: 1 }
    }

    /// Drops the waiting players whose mark is set.
    pub fn remove_marked(&mut self, marks: &Vec<bool>)
        requires
            marks@.len() == old(self).ready().len(),
        ensures
            final(self).ready() == keep_unmarked(old(self).ready(), marks@),
            final(self).cooldowns() == old(self).cooldowns(),
            final(self).next_number() == old(self).next_number(),
    {
        let mut rest: Vec<WaitingSession> = Vec::new();
        std::mem::swap(&mut rest, &mut self.ready_list);
        let ghost orig = rest@;
        let n = rest.len();
        let mut i: usize = 0;
        assert(orig.skip(0) =~= orig);
        while i < n
            invariant
                n == orig.len(),
                marks@.len() == n,
                i <= n,
                rest@ == orig.skip(i as int),
                self.ready_list@ == keep_unmarked(orig.take(i as int), marks@.take(i as int)),
                self.cooldown_queue@ == old(self).cooldown_queue@,
                self.next_id == old(self).next_id,
            decreases n - i,
        {
            let w = rest.remove(0);
            assert(w == orig[i as int]);
            if !marks[i] {
                self.ready_list.push(w);
            }
            proof {
                assert(orig.take(i + 1).drop_last() =~= orig.take(i as int));
                assert(marks@.take(i + 1).drop_last() =~= marks@.take(i as int));
                assert(rest@ =~= orig.skip(i + 1));
            }
            i += 1;
        }
        assert(orig.take(n as int) =~= orig);
        assert(marks@.take(n as int) =~= marks@);
    }

    /// Marks the waiting players whose connection has gone away; with
    /// `handle_only`, only the outgoing side is looked at.
    fn closed_marks(&self, handle_only: bool) -> (r: Vec<bool>)
        ensures
            r@.len() == self.ready().len(),
    {
        let mut marks: Vec<bool> = Vec::new();
        let mut i: usize = 0;
        while i < self.ready_list.len()
            invariant
                i <= self.ready_list@.len(),
                marks@.len() == i,
            decreases self.ready_list.len() - i,
        {
            let closed = if handle_only {
                self.ready_list[i].session.handle.is_closed()
            } else {
                self.ready_list[i].session.is_closed()
            };
            marks.push(closed);
            i += 1;
        }
        marks
    }

    /// Drops the players whose connection has gone away, and lists the
    /// others.
    pub fn list_waiting(&mut self) -> (r: Vec<FreeMatchClientInfo>)
        ensures
            exists|marks: Seq<bool>|
                marks.len() == old(self).ready().len() && final(self).ready() == keep_unmarked(
                    old(self).ready(),
                    marks,
                ),
            final(self).cooldowns() == old(self).cooldowns(),
            final(self).next_number() == old(self).next_number(),
            r@.len() == final(self).ready().len(),
            forall|i: int| 0 <= i < r@.len() ==> info_of(final(self).ready()[i], #[trigger] r@[i]),
    {
        let marks = self.closed_marks(false);
        self.remove_marked(&marks);
        self.infos()
    }

    /// The lobby's view of the waiting players.
    pub fn infos(&self) -> (r: Vec<FreeMatchClientInfo>)
        ensures
            r@.len() == self.ready().len(),
            forall|i: int| 0 <= i < r@.len() ==> info_of(self.ready()[i], #[trigger] r@[i]),
    {
        let mut out: Vec<FreeMatchClientInfo> = Vec::new();
        let mut i: usize = 0;
        while i < self.ready_list.len()
            invariant
                i <= self.ready_list@.len(),
                out@.len() == i,
                forall|k: int| 0 <= k < i ==> info_of(self.ready_list@[k], #[trigger] out@[k]),
            decreases self.ready_list.len() - i,
        {
            let w = &self.ready_list[i];
            out.push(
                FreeMatchClientInfo {
                    client_id: w.id.clone(),
                    player_name: w.session.handle.player_name.clone(),
                    assigned_time_ms: w.assigned_time_ms,
                    cooldown_sec: w.cooldown_sec,
                },
            );
            i += 1;
        }
        out
    }

    /// Forgets the player named `player_name`: its waiting entries and the
    /// cooldowns that name it.
    pub fn remove_by_name(&mut self, player_name: &str)
        ensures
            final(self).ready() == without_player(old(self).ready(), player_name@),
            final(self).cooldowns() == cooldowns_without(old(self).cooldowns(), player_name@),
            final(self).next_number() == old(self).next_number(),
    {
        let mut marks: Vec<bool> = Vec::new();
        let mut i: usize = 0;
        while i < self.ready_list.len()
            invariant
                i <= self.ready_list@.len(),
                marks@.len() == i,
                forall|k: int|
                    0 <= k < i ==> #[trigger] marks@[k] == (waiting_name(self.ready_list@[k])
                        == player_name@),
            decreases self.ready_list.len() - i,
        {
            marks.push(str_eq(self.ready_list[i].session.handle.player_name.as_str(), player_name));
            i += 1;
        }
        proof {
            lemma_marks_by_name(self.ready_list@, marks@, player_name@);
        }
        self.remove_marked(&marks);
        let mut kept: VecDeque<CooldownEntry> = VecDeque::new();
        let ghost orig = self.cooldown_queue@;
        let mut k: usize = 0;
        while k < self.cooldown_queue.len()
            invariant
                orig == self.cooldown_queue@,
                k <= orig.len(),
                kept@ == cooldowns_without(orig.take(k as int), player_name@),
            decreases self.cooldown_queue.len() - k,
        {
            let e = &self.cooldown_queue[k];
            if !(str_eq(e.p1_name.as_str(), player_name) || str_eq(e.p2_name.as_str(), player_name)) {
                kept.push_back(e.duplicate());
            }
            proof {
                assert(orig.take(k + 1).drop_last() =~= orig.take(k as int));
            }
            k += 1;
        }
        assert(orig.take(orig.len() as int) =~= orig);
        self.cooldown_queue = kept;
    }

    /// Puts a player in the queue, after dropping those whose connection
    /// has gone away, and gives its queue id `free_n` for the next number n.
    pub fn enqueue(
        &mut self,
        session: ActivePlayerSession,
        assigned_time_ms: i32,
        pref_color: PreferredColor,
        cooldown_sec: u64,
    ) -> (r: String)
        requires
            old(self).next_number() < u64::MAX,
        ensures
            r@ == queue_id_text(old(self).next_number() as nat),
            final(self).next_number() == old(self).next_number() + 1,
            final(self).cooldowns() == old(self).cooldowns(),
            final(self).ready().len() > 0,
            exists|marks: Seq<bool>|
                marks.len() == old(self).ready().len() && final(self).ready().drop_last()
                    == keep_unmarked(old(self).ready(), marks),
            final(self).ready().last().id@ == r@,
            final(self).ready().last().session == session,
            final(self).ready().last().assigned_time_ms == assigned_time_ms,
            final(self).ready().last().pref_color == pref_color,
            final(self).ready().last().cooldown_sec == cooldown_sec,
    {
        let marks = self.closed_marks(false);
        self.remove_marked(&marks);
        let mut client_id = String::from_str("free_");
        push_decimal(&mut client_id, self.next_id);
        self.next_id = self.next_id + 1;
        let ghost kept = self.ready_list@;
        self.ready_list.push(
            WaitingSession {
                id: client_id.clone(),
                session,
                assigned_time_ms,
                pref_color,
                cooldown_sec,
            },
        );
        assert(self.ready_list@.drop_last() =~= kept);
        client_id
    }

    /// Drops the cooldowns at the front of the queue that have run out at
    /// `now` (milliseconds on the server's clock).
    pub fn expire_cooldowns(&mut self, now: u64)
        ensures
            final(self).cooldowns() == old(self).cooldowns().skip(
                expired_prefix(old(self).cooldowns(), now) as int,
            ),
            final(self).ready() == old(self).ready(),
            final(self).next_number() == old(self).next_number(),
    {
        let ghost orig = self.cooldown_queue@;
        let ghost mut k: int = 0;
        assert(orig.skip(0) =~= orig);
        while self.cooldown_queue.len() > 0 && now >= self.cooldown_queue[0].available_at
            invariant
                0 <= k <= orig.len(),
                self.cooldown_queue@ == orig.skip(k),
                expired_prefix(orig, now) == k + expired_prefix(orig.skip(k), now),
                self.ready_list@ == old(self).ready_list@,
                self.next_id == old(self).next_id,
                orig == old(self).cooldown_queue@,
            decreases self.cooldown_queue.len(),
        {
            self.cooldown_queue.pop_front();
            proof {
                assert(orig.skip(k).drop_first() =~= orig.skip(k + 1));
                k = k + 1;
            }
        }
    }

    /// Whether the players named `name1` and `name2` were paired too
    /// recently to meet again at `now`.
    pub fn in_cooldown(&self, name1: &str, name2: &str, now: u64) -> (r: bool)
        ensures
            r == in_cooldown(self.cooldowns(), name1@, name2@, now),
    {
        let mut k: usize = 0;
        while k < self.cooldown_queue.len()
            invariant
                k <= self.cooldown_queue@.len(),
                forall|m: int|
                    0 <= m < k ==> !(same_pair(#[trigger] self.cooldown_queue@[m], name1@, name2@)
                        && now < self.cooldown_queue@[m].available_at),
            decreases self.cooldown_queue.len() - k,
        {
            let e = &self.cooldown_queue[k];
            if e.is_pair(name1, name2) && now < e.available_at {
                return true;
            }
            k += 1;
        }
        false
    }

    /// The first pair of waiting players, in the search order, that may
    /// play at `now`.
    pub fn find_pair(&self, now: u64) -> (r: Option<(usize, usize)>)
        ensures
            match r {
                Some((i, j)) => is_first_allowed_pair(self.ready(), self.cooldowns(), now, i as int, j as int),
                None => no_allowed_pair(self.ready(), self.cooldowns(), now),
            },
    {
        let len = self.ready_list.len();
        let mut i: usize = 0;
        while i < len
            invariant
                len == self.ready_list@.len(),
                i <= len,
                forall|i2: int, j2: int|
                    0 <= i2 < j2 < len && i2 < i ==> !pair_allowed(self.ready(), self.cooldowns(), now, i2, j2),
            decreases len - i,
        {
            let mut j: usize = i + 1;
            while j < len
                invariant
                    len == self.ready_list@.len(),
                    i < len,
                    i + 1 <= j <= len,
                    forall|i2: int, j2: int|
                        0 <= i2 < j2 < len && (i2 < i || (i2 == i && j2 < j)) ==> !pair_allowed(
                            self.ready(),
                            self.cooldowns(),
                            now,
                            i2,
                            j2,
                        ),
                decreases len - j,
            {
                let blocked = self.in_cooldown(
                    self.ready_list[i].session.handle.player_name.as_str(),
                    self.ready_list[j].session.handle.player_name.as_str(),
                    now,
                );
                if !blocked {
                    return Some((i, j));
                }
                j += 1;
            }
            i += 1;
        }
        None
    }

    /// Tries to pair two waiting players at `now`: runs out the expired
    /// cooldowns, drops players whose outgoing connection has gone away,
    /// and takes out the first pair that may play, colours settled by
    /// `first_takes_black` with `coin`.
    pub fn take_pairing(&mut self, now: u64, coin: bool) -> (r: Option<Pairing>)
        ensures
            final(self).cooldowns() == old(self).cooldowns().skip(
                expired_prefix(old(self).cooldowns(), now) as int,
            ),
            final(self).next_number() == old(self).next_number(),
            exists|marks: Seq<bool>|
                marks.len() == old(self).ready().len() && pairing_outcome(
                    keep_unmarked(old(self).ready(), marks),
                    final(self).ready(),
                    final(self).cooldowns(),
                    now,
                    coin,
                    r,
                ),
    {
        self.expire_cooldowns(now);
        let marks = self.closed_marks(true);
        self.remove_marked(&marks);
        let ghost rl = self.ready_list@;
        match self.find_pair(now) {
            None => None,
            Some((i, j)) => {
                let s2 = self.ready_list.remove(j);
                let s1 = self.ready_list.remove(i);
                assert(self.ready_list@ == rl.remove(j as int).remove(i as int));
                let p1_name = s1.session.handle.player_name.clone();
                let p2_name = s2.session.handle.player_name.clone();
                let assigned_time = if s1.assigned_time_ms < s2.assigned_time_ms {
                    s1.assigned_time_ms
                } else {
                    s2.assigned_time_ms
                };
                let max_cooldown_sec = if s1.cooldown_sec > s2.cooldown_sec {
                    s1.cooldown_sec
                } else {
                    s2.cooldown_sec
                };
                let info = PairingInfo {
                    p1_name,
                    p2_name,
                    assigned_time_ms: assigned_time,
                    max_cooldown_sec,
                    s1_cooldown_sec: s1.cooldown_sec,
                    s2_cooldown_sec: s2.cooldown_sec,
                };
                let first_black = first_player_is_black(s1.pref_color, s2.pref_color, coin);
                let p = if first_black {
                    Pairing { black: s1.session, white: s2.session, info }
                } else {
                    Pairing { black: s2.session, white: s1.session, info }
                };
                assert(pairing_outcome(rl, self.ready_list@, self.cooldown_queue@, now, coin, Some(p)));
                Some(p)
            },
        }
    }

    /// The matchmaking step at `now`: as `take_pairing`, with a fresh coin
    /// for two `Random` requests.
    pub fn try_matchmake(&mut self, now: u64) -> (r: Option<Pairing>)
        ensures
            final(self).cooldowns() == old(self).cooldowns().skip(
                expired_prefix(old(self).cooldowns(), now) as int,
            ),
            final(self).next_number() == old(self).next_number(),
            exists|marks: Seq<bool>, coin: bool|
                marks.len() == old(self).ready().len() && pairing_outcome(
                    keep_unmarked(old(self).ready(), marks),
                    final(self).ready(),
                    final(self).cooldowns(),
                    now,
                    coin,
                    r,
                ),
    {
        let coin = random_coin();
        self.take_pairing(now, coin)
    }

    /// Starts the cooldown of a pair whose game ended at `now`: the two
    /// may meet again `max_cooldown_sec` seconds later.
    pub fn add_cooldown(&mut self, info: &PairingInfo, now: u64)
        requires
            now + info.max_cooldown_sec * 1000 <= u64::MAX,
        ensures
            final(self).cooldowns().len() == old(self).cooldowns().len() + 1,
            final(self).cooldowns().drop_last() == old(self).cooldowns(),
            final(self).cooldowns().last().p1_name == info.p1_name,
            final(self).cooldowns().last().p2_name == info.p2_name,
            final(self).cooldowns().last().available_at == now + info.max_cooldown_sec * 1000,
            final(self).ready() == old(self).ready(),
            final(self).next_number() == old(self).next_number(),
    {
        let available_at = now + info.max_cooldown_sec * 1000;
        let ghost before = self.cooldown_queue@;
        self.cooldown_queue.push_back(
            CooldownEntry {
                p1_name: info.p1_name.clone(),
                p2_name: info.p2_name.clone(),
                available_at,
            },
        );
        assert(self.cooldown_queue@.drop_last() =~= before);
    }

    /// Puts a player back in the queue after its free match, when it is a
    /// connected human; tells whether it was put back. Whether the
    /// connection is closed is asked of its channels; `requeue_session`
    /// does the rest.
    pub fn requeue_player(&mut self, p: Participant, info: &PairingInfo) -> (r: bool)
        ensures
            r ==> (p matches Participant::Human(sess) && final(self).ready().len() == old(
                self,
            ).ready().len() + 1 && final(self).ready().drop_last() == old(self).ready()
                && requeued_as(final(self).ready().last(), sess, *info)),
            !r ==> final(self).ready() == old(self).ready(),
            !(p is Human) ==> !r,
            final(self).cooldowns() == old(self).cooldowns(),
            final(self).next_number() == old(self).next_number(),
    {
        match p {
            Participant::Human(sess) => {
                let closed = sess.is_closed();
                self.requeue_session(sess, closed, info)
            },
            _ => false,
        }
    }

    /// Puts a human player back in the queue after its free match, given
    /// whether its connection was found closed (`closed`): a closed one is
    /// left out, an open one comes back as `requeued_as` says. Tells
    /// whether it was put back.
    pub fn requeue_session(&mut self, sess: ActivePlayerSession, closed: bool, info: &PairingInfo) -> (r: bool)
        ensures
            r == !closed,
            r ==> final(self).ready().last().pref_color == PreferredColor::Random,
            r ==> final(self).ready().len() == old(self).ready().len() + 1
                && final(self).ready().drop_last() == old(self).ready() && requeued_as(
                final(self).ready().last(),
                sess,
                *info,
            ),
            !r ==> final(self).ready() == old(self).ready(),
            final(self).cooldowns() == old(self).cooldowns(),
            final(self).next_number() == old(self).next_number(),
    {
        if closed {
            return false;
        }
        let name = sess.handle.player_name.clone();
        let mut id = String::from_str("free_re_");
        push_str(&mut id, name.as_str());
        let cooldown = if str_eq(name.as_str(), info.p1_name.as_str()) {
            info.s1_cooldown_sec
        } else {
            info.s2_cooldown_sec
        };
        let ghost before = self.ready_list@;
        let ghost s = sess;
        self.ready_list.push(
            WaitingSession {
                id,
                session: sess,
                assigned_time_ms: info.assigned_time_ms,
                pref_color: PreferredColor::Random,
                cooldown_sec: cooldown,
            },
        );
        assert(self.ready_list@.drop_last() =~= before);
        assert(requeued_as(self.ready_list@.last(), s, *info));
        true
    }
}

proof fn lemma_marks_by_name(s: Seq<WaitingSession>, marks: Seq<bool>, name: Seq<char>)
    requires
        marks.len() == s.len(),
        forall|k: int| 0 <= k < s.len() ==> #[trigger] marks[k] == (waiting_name(s[k]) == name),
    ensures
        keep_unmarked(s, marks) == without_player(s, name),
    decreases s.len(),
{
    if s.len() > 0 {
        let s2 = s.drop_last();
        let m2 = marks.drop_last();
        assert forall|k: int| 0 <= k < s2.len() implies #[trigger] m2[k] == (waiting_name(s2[k]) == name) by {
            assert(m2[k] == marks[k] && s2[k] == s[k]);
        }
        lemma_marks_by_name(s2, m2, name);
        assert(marks.last() == marks[s.len() - 1]);
    }
}

proof fn lemma_expired_prefix_len(cd: Seq<CooldownEntry>, now: u64)
    ensures
        expired_prefix(cd, now) <= cd.len(),
    decreases cd.len(),
{
    if cd.len() > 0 && now >= cd[0].available_at {
        lemma_expired_prefix_len(cd.drop_first(), now);
    }
}

/// Expiring the cooldowns that ran out at `now` keeps every cooldown that
/// still runs at `now`.
proof fn lemma_running_cooldown_kept(cd: Seq<CooldownEntry>, a: Seq<char>, b: Seq<char>, now: u64)
    requires
        in_cooldown(cd, a, b, now),
    ensures
        in_cooldown(cd.skip(expired_prefix(cd, now) as int), a, b, now),
    decreases cd.len(),
{
    if expired_prefix(cd, now) == 0 {
        assert(cd.skip(0) =~= cd);
    } else {
        let k = choose|k: int| 0 <= k < cd.len() && same_pair(#[trigger] cd[k], a, b) && now < cd[k].available_at;
        assert(k != 0);
        let rest = cd.drop_first();
        assert(rest[k - 1] == cd[k]);
        lemma_running_cooldown_kept(rest, a, b, now);
        let m = expired_prefix(rest, now);
        lemma_expired_prefix_len(rest, now);
        assert(expired_prefix(cd, now) == 1 + m);
        assert(cd.skip(1 + m as int) =~= rest.skip(m as int));
    }
}

/// Two players who finished a free match are not paired again while their
/// cooldown runs: whenever a pairing step at `now` (on the queue's
/// cooldowns `cd`) pairs two players, no cooldown of `cd` that still runs
/// at `now` names that pair.
pub proof fn law_no_rematch_during_cooldown(
    cd: Seq<CooldownEntry>,
    rl: Seq<WaitingSession>,
    after: Seq<WaitingSession>,
    now: u64,
    coin: bool,
    p: Pairing,
)
    requires
        pairing_outcome(rl, after, cd.skip(expired_prefix(cd, now) as int), now, coin, Some(p)),
    ensures
        !in_cooldown(cd, p.info.p1_name@, p.info.p2_name@, now),
{
    let kept = cd.skip(expired_prefix(cd, now) as int);
    let (i, j) = choose|i: int, j: int|
        {
            &&& is_first_allowed_pair(rl, kept, now, i, j)
            &&& after == rl.remove(j).remove(i)
            &&& p.info.p1_name@ == waiting_name(rl[i])
            &&& p.info.p2_name@ == waiting_name(rl[j])
            &&& p.info.assigned_time_ms == if rl[i].assigned_time_ms < rl[j].assigned_time_ms {
                rl[i].assigned_time_ms
            } else {
                rl[j].assigned_time_ms
            }
            &&& p.info.max_cooldown_sec == if rl[i].cooldown_sec > rl[j].cooldown_sec {
                rl[i].cooldown_sec
            } else {
                rl[j].cooldown_sec
            }
            &&& p.info.s1_cooldown_sec == rl[i].cooldown_sec
            &&& p.info.s2_cooldown_sec == rl[j].cooldown_sec
            &&& if first_takes_black(rl[i].pref_color, rl[j].pref_color, coin) {
                p.black == rl[i].session && p.white == rl[j].session
            } else {
                p.black == rl[j].session && p.white == rl[i].session
            }
        };
    if in_cooldown(cd, p.info.p1_name@, p.info.p2_name@, now) {
        lemma_running_cooldown_kept(cd, p.info.p1_name@, p.info.p2_name@, now);
    }
}

/// A player put back in the queue after a free match asks for no colour:
/// in any later pairing, a partner who asked for Black gets Black and one
/// who asked for White gets White, whichever of the two comes first.
pub proof fn law_requeued_without_preference(
    w: WaitingSession,
    sess: ActivePlayerSession,
    info: PairingInfo,
    other: PreferredColor,
    coin: bool,
)
    requires
        requeued_as(w, sess, info),
    ensures
        w.pref_color == PreferredColor::Random,
        other == PreferredColor::Black ==> !first_takes_black(w.pref_color, other, coin)
            && first_takes_black(other, w.pref_color, coin),
        other == PreferredColor::White ==> first_takes_black(w.pref_color, other, coin)
            && !first_takes_black(other, w.pref_color, coin),
{
}

} // verus!
