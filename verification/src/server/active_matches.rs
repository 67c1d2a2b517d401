//! The matches being played right now.
use vstd::prelude::*;
use crate::text::{decimal, lemma_decimal_injective, push_decimal, str_eq};

verus! {

/// A match in progress.
#[derive(Debug, Clone)]
pub struct ActiveMatchInfo {
    pub match_id: String,
    pub mode: String,
    pub black_name: String,
    pub white_name: String,
    pub move_count: u32,
    pub started_at_sec: u64,
}

impl ActiveMatchInfo {
    /// A copy of the record.
    pub fn duplicate(&self) -> (r: ActiveMatchInfo)
        ensures
            r == *self,
    {
        ActiveMatchInfo {
            match_id: self.match_id.clone(),
            mode: self.mode.clone(),
            black_name: self.black_name.clone(),
            white_name: self.white_name.clone(),
            move_count: self.move_count,
            started_at_sec: self.started_at_sec,
        }
    }
}

#[verifier::external_type_specification]
#[verifier::external_body]
pub struct ExSystemTime(std::time::SystemTime);

#[verifier::external_type_specification]
#[verifier::external_body]
pub struct ExSystemTimeError(std::time::SystemTimeError);

/// Calls `SystemTime::now`: the system clock. The time is not stated.
#[verifier::external_body]
fn system_now() -> std::time::SystemTime {
    std::time::SystemTime::now()
}

/// Calls `SystemTime::duration_since` with the Unix epoch: the time since
/// the epoch, or an error when `t` lies before it. Which comes depends on
/// the clock and is not stated.
#[verifier::external_body]
fn since_unix_epoch(t: &std::time::SystemTime) -> Result<std::time::Duration, std::time::SystemTimeError> {
    t.duration_since(std::time::UNIX_EPOCH)
}

/// Calls `Duration::as_secs`: the whole seconds of `d`. A duration is
/// opaque here, so nothing is stated of the result.
#[verifier::external_body]
fn whole_secs(d: &std::time::Duration) -> u64 {
    d.as_secs()
}

/// Seconds since the Unix epoch by the system clock, 0 when the clock is
/// before the epoch.
fn unix_time_secs() -> u64 {
    let now = system_now();
    match since_unix_epoch(&now) {
        Ok(d) => whole_secs(&d),
        Err(_) => 0,
    }
}

/// The id of the n-th registered match: `match_n`.
pub open spec fn match_id_text(n: nat) -> Seq<char> {
    "match_"@ + decimal(n)
}

/// The first position in `s` whose match has id `id`, if any.
pub open spec fn find_match(s: Seq<ActiveMatchInfo>, id: Seq<char>) -> Option<int> {
    if exists|i: int| 0 <= i < s.len() && (#[trigger] s[i]).match_id@ == id {
        Some(
            choose|i: int|
                0 <= i < s.len() && (#[trigger] s[i]).match_id@ == id && forall|j: int|
                    0 <= j < i ==> (#[trigger] s[j]).match_id@ != id,
        )
    } else {
        None
    }
}

/// The matches in progress, each under an id of its own.
pub struct ActiveMatchRegistry {
    matches: Vec<ActiveMatchInfo>,
    next_id: u64,
    numbers: Ghost<Seq<nat>>,
}

impl ActiveMatchRegistry {
    /// The matches in progress, oldest first.
    pub closed spec fn entries(&self) -> Seq<ActiveMatchInfo> {
        self.matches@
    }

    /// The number the next registered match gets.
    pub closed spec fn next_number(&self) -> u64 {
        self.next_id
    }

    /// Whether another id can still be numbered.
    pub fn ids_available(&self) -> (r: bool)
        ensures
            r == (self.next_number() < u64::MAX),
    {
        self.next_id < u64::MAX
    }

    /// Every entry carries the id `match_n` for its own number n, below
    /// the next number.
    pub closed spec fn wf(&self) -> bool {
        &&& self.numbers@.len() == self.matches@.len()
        &&& forall|i: int|
            0 <= i < self.matches@.len() ==> (#[trigger] self.matches@[i]).match_id@
                == match_id_text(self.numbers@[i])
        &&& forall|i: int| 0 <= i < self.numbers@.len() ==> #[trigger] self.numbers@[i] < self.next_id
        &&& forall|i: int, j: int|
            0 <= i < j < self.numbers@.len() ==> self.numbers@[i] != self.numbers@[j]
    }

    /// No match in progress; the first id is `match_1`.
    pub fn new() -> (r: ActiveMatchRegistry)
        ensures
            r.wf(),
            r.entries() == Seq::<ActiveMatchInfo>::empty(),
            r.next_number() == 1,
    {
        ActiveMatchRegistry { matches: Vec::new(), next_id: 1, numbers: Ghost(Seq::empty()) }
    }

    /// Registers a new match and gives its id, `match_n` for the next
    /// number n. Its move count starts at 0; its start time is the clock's,
    /// read now.
    pub fn register(&mut self, mode: &str, black_name: &str, white_name: &str) -> (r: String)
        requires
            old(self).wf(),
            old(self).next_number() < u64::MAX,
        ensures
            final(self).wf(),
            r@ == match_id_text(old(self).next_number() as nat),
            final(self).next_number() == old(self).next_number() + 1,
            final(self).entries().len() == old(self).entries().len() + 1,
            final(self).entries().drop_last() == old(self).entries(),
            final(self).entries().last().match_id@ == r@,
            final(self).entries().last().mode@ == mode@,
            final(self).entries().last().black_name@ == black_name@,
            final(self).entries().last().white_name@ == white_name@,
            final(self).entries().last().move_count == 0,
            forall|i: int|
                0 <= i < old(self).entries().len() ==> (#[trigger] old(self).entries()[i]).match_id@
                    != r@,
    {
        let now = unix_time_secs();
        self.register_at(mode, black_name, white_name, now)
    }

    /// Registers a new match that started at `started_at_sec` (seconds
    /// since the Unix epoch) and gives its id, `match_n` for the next
    /// number n. Its move count starts at 0.
    pub fn register_at(&mut self, mode: &str, black_name: &str, white_name: &str, started_at_sec: u64) -> (r: String)
        requires
            old(self).wf(),
            old(self).next_number() < u64::MAX,
        ensures
            final(self).wf(),
            r@ == match_id_text(old(self).next_number() as nat),
            final(self).next_number() == old(self).next_number() + 1,
            final(self).entries().len() == old(self).entries().len() + 1,
            final(self).entries().drop_last() == old(self).entries(),
            final(self).entries().last().match_id@ == r@,
            final(self).entries().last().mode@ == mode@,
            final(self).entries().last().black_name@ == black_name@,
            final(self).entries().last().white_name@ == white_name@,
            final(self).entries().last().move_count == 0,
            final(self).entries().last().started_at_sec == started_at_sec,
            forall|i: int|
                0 <= i < old(self).entries().len() ==> (#[trigger] old(self).entries()[i]).match_id@
                    != r@,
    {
        let mut match_id = String::from_str("match_");
        push_decimal(&mut match_id, self.next_id);
        let n = self.next_id;
        proof {
            reveal_strlit("match_");
            assert forall|i: int| 0 <= i < self.matches@.len() implies (
            #[trigger] self.matches@[i]).match_id@ != match_id@ by {
                if self.matches@[i].match_id@ == match_id@ {
                    let k = self.numbers@[i];
                    assert(decimal(k) =~= self.matches@[i].match_id@.skip(6));
                    assert(decimal(n as nat) =~= match_id@.skip(6));
                    lemma_decimal_injective(k, n as nat);
                }
            }
        }
        self.next_id = self.next_id + 1;
        let info = ActiveMatchInfo {
            match_id: match_id.clone(),
            mode: String::from_str(mode),
            black_name: String::from_str(black_name),
            white_name: String::from_str(white_name),
            move_count: 0,
            started_at_sec,
        };
        let ghost old_numbers = self.numbers@;
        self.matches.push(info);
        self.numbers = Ghost(old_numbers.push(n as nat));
        proof {
            assert forall|i: int| 0 <= i < self.matches@.len() implies {
                &&& (#[trigger] self.matches@[i]).match_id@ == match_id_text(self.numbers@[i])
                &&& self.numbers@[i] < self.next_id
            } by {
                assert(old_numbers.len() == self.matches@.len() - 1);
                if i < self.matches@.len() - 1 {
                    assert(self.numbers@[i] == old_numbers[i]);
                }
            }
            assert forall|a: int, b: int|
                0 <= a < b < self.numbers@.len() implies self.numbers@[a] != self.numbers@[b] by {
                if b < self.numbers@.len() - 1 {
                    assert(self.numbers@[a] == old_numbers[a] && self.numbers@[b] == old_numbers[b]);
                } else {
                    assert(self.numbers@[a] == old_numbers[a]);
                    assert(old_numbers[a] < n);
                }
            }
        }
        match_id
    }

    /// Counts one more move in the match with id `match_id`, if it is
    /// registered.
    pub fn update_move(&mut self, match_id: &str)
        requires
            old(self).wf(),
            find_match(old(self).entries(), match_id@) matches Some(i) ==> old(
                self,
            ).entries()[i].move_count < u32::MAX,
        ensures
            final(self).wf(),
            final(self).next_number() == old(self).next_number(),
            match find_match(old(self).entries(), match_id@) {
                Some(i) => final(self).entries() == old(self).entries().update(
                    i,
                    ActiveMatchInfo { move_count: (old(self).entries()[i].move_count + 1) as u32, ..old(self).entries()[i] },
                ),
                None => final(self).entries() == old(self).entries(),
            },
    {
        let mut i: usize = 0;
        while i < self.matches.len()
            invariant
                i <= self.matches@.len(),
                self.wf(),
                self.matches@ == old(self).matches@,
                self.next_id == old(self).next_id,
                self.numbers == old(self).numbers,
                find_match(old(self).entries(), match_id@) matches Some(k) ==> old(
                    self,
                ).entries()[k].move_count < u32::MAX,
                forall|j: int| 0 <= j < i ==> (#[trigger] self.matches@[j]).match_id@ != match_id@,
            decreases self.matches.len() - i,
        {
            if str_eq(self.matches[i].match_id.as_str(), match_id) {
                assert(find_match(self.matches@, match_id@) == Some(i as int));
                let mut info = self.matches[i].duplicate();
                info.move_count = info.move_count + 1;
                let ghost old_matches = self.matches@;
                self.matches.set(i, info);
                proof {
                    assert forall|k: int| 0 <= k < self.matches@.len() implies {
                        &&& (#[trigger] self.matches@[k]).match_id@ == match_id_text(
                            self.numbers@[k],
                        )
                        &&& self.numbers@[k] < self.next_id
                    } by {
                        if k != i {
                            assert(self.matches@[k] == old_matches[k]);
                        }
                    }
                    assert(self.matches@ =~= old(self).entries().update(
                        i as int,
                        ActiveMatchInfo { move_count: (old(self).entries()[i as int].move_count + 1) as u32, ..old(self).entries()[i as int] },
                    ));
                }
                return;
            }
            i += 1;
        }
    }

    /// Removes the match with id `match_id`, if it is registered.
    pub fn unregister(&mut self, match_id: &str)
        requires
            old(self).wf(),
        ensures
            final(self).wf(),
            final(self).next_number() == old(self).next_number(),
            match find_match(old(self).entries(), match_id@) {
                Some(i) => final(self).entries() == old(self).entries().remove(i),
                None => final(self).entries() == old(self).entries(),
            },
    {
        let mut i: usize = 0;
        while i < self.matches.len()
            invariant
                i <= self.matches@.len(),
                self.wf(),
                self.matches@ == old(self).matches@,
                self.next_id == old(self).next_id,
                self.numbers == old(self).numbers,
                
                forall|j: int| 0 <= j < i ==> (#[trigger] self.matches@[j]).match_id@ != match_id@,
            decreases self.matches.len() - i,
        {
            if str_eq(self.matches[i].match_id.as_str(), match_id) {
                assert(find_match(self.matches@, match_id@) == Some(i as int));
                let ghost old_numbers = self.numbers@;
                let ghost old_matches = self.matches@;
                self.matches.remove(i);
                self.numbers = Ghost(old_numbers.remove(i as int));
                proof {
                    assert forall|k: int| 0 <= k < self.matches@.len() implies {
                        &&& (#[trigger] self.matches@[k]).match_id@ == match_id_text(
                            self.numbers@[k],
                        )
                        &&& self.numbers@[k] < self.next_id
                    } by {
                        if k < i {
                            assert(self.matches@[k] == old_matches[k]);
                        } else {
                            assert(self.matches@[k] == old_matches[k + 1]);
                        }
                    }
                    assert forall|a: int, b: int|
                        0 <= a < b < self.numbers@.len() implies self.numbers@[a]
                        != self.numbers@[b] by {
                        let a2 = if a < i { a } else { a + 1 };
                        let b2 = if b < i { b } else { b + 1 };
                        assert(self.numbers@[a] == old_numbers[a2]);
                        assert(self.numbers@[b] == old_numbers[b2]);
                    }
                }
                return;
            }
            i += 1;
        }
    }

    /// The matches in progress.
    pub fn list(&self) -> (r: Vec<ActiveMatchInfo>)
        ensures
            r@ == self.entries(),
    {
        let mut out: Vec<ActiveMatchInfo> = Vec::new();
        let mut i: usize = 0;
        while i < self.matches.len()
            invariant
                i <= self.matches@.len(),
                out@ == self.matches@.take(i as int),
            decreases self.matches.len() - i,
        {
            out.push(self.matches[i].duplicate());
            i += 1;
            assert(out@ =~= self.matches@.take(i as int));
        }
        assert(self.matches@.take(self.matches@.len() as int) =~= self.matches@);
        out
    }
}

/// Ids of matches in progress are all different.
pub proof fn law_match_ids_distinct(reg: ActiveMatchRegistry, i: int, j: int)
    requires
        reg.wf(),
        0 <= i < j < reg.entries().len(),
    ensures
        reg.entries()[i].match_id@ != reg.entries()[j].match_id@,
{
    reveal_strlit("match_");
    let a = reg.numbers@[i];
    let b = reg.numbers@[j];
    if reg.matches@[i].match_id@ == reg.matches@[j].match_id@ {
        assert(decimal(a) =~= reg.matches@[i].match_id@.skip(6));
        assert(decimal(b) =~= reg.matches@[j].match_id@.skip(6));
        lemma_decimal_injective(a, b);
    }
}

/// What `find_match` gives: the first match with the id, or none.
pub proof fn lemma_find_match(s: Seq<ActiveMatchInfo>, id: Seq<char>)
    ensures
        match find_match(s, id) {
            Some(i) => 0 <= i < s.len() && s[i].match_id@ == id && forall|j: int|
                0 <= j < i ==> (#[trigger] s[j]).match_id@ != id,
            None => forall|j: int| 0 <= j < s.len() ==> (#[trigger] s[j]).match_id@ != id,
        },
{
    if exists|i: int| 0 <= i < s.len() && (#[trigger] s[i]).match_id@ == id {
        let p = |m: ActiveMatchInfo| m.match_id@ == id;
        assert(exists|i: int| 0 <= i < s.len() && p(#[trigger] s[i]));
        let w = crate::search::lemma_first_witness(s, p, 0);
        assert(0 <= w < s.len() && s[w].match_id@ == id && forall|j: int|
            0 <= j < w ==> (#[trigger] s[j]).match_id@ != id);
    }
}

} // verus!
