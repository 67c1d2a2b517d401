//! Clients waiting for a person on the web page to play them.
use vstd::prelude::*;
use crate::text::{decimal, lemma_decimal_injective, push_decimal, str_eq};
use super::freematch::keep_unmarked;
use super::match_runner::Participant;
use super::session::ActivePlayerSession;

verus! {

/// A waiting client as the lobby lists it.
#[derive(Debug, Clone)]
pub struct WaitingClientInfo {
    pub client_id: String,
    pub player_name: String,
    pub assigned_time_ms: i32,
}

/// A client waiting for a person to play.
pub struct WaitingClient {
    pub client_id: String,
    pub session: ActivePlayerSession,
    pub assigned_time_ms: i32,
}

/// The id of the n-th waiting client: `client_n`.
pub open spec fn client_id_text(n: nat) -> Seq<char> {
    "client_"@ + decimal(n)
}

/// The name of a waiting client.
pub open spec fn client_name(c: WaitingClient) -> Seq<char> {
    c.session.handle.player_name@
}

/// The clients of `s` not named `name`.
pub open spec fn clients_without(s: Seq<WaitingClient>, name: Seq<char>) -> Seq<WaitingClient>
    decreases s.len(),
{
    if s.len() == 0 {
        s
    } else {
        let rest = clients_without(s.drop_last(), name);
        if client_name(s.last()) == name {
            rest
        } else {
            rest.push(s.last())
        }
    }
}

/// The first position in `s` of the client with id `id`, if any.
pub open spec fn find_client(s: Seq<WaitingClient>, id: Seq<char>) -> Option<int> {
    if exists|i: int| 0 <= i < s.len() && (#[trigger] s[i]).client_id@ == id {
        Some(
            choose|i: int|
                0 <= i < s.len() && (#[trigger] s[i]).client_id@ == id && forall|j: int|
                    0 <= j < i ==> (#[trigger] s[j]).client_id@ != id,
        )
    } else {
        None
    }
}

/// Taking the client with id `id` from the list `kept`: it is removed and
/// its session and time come back; without such a client nothing changes.
pub open spec fn take_outcome(
    kept: Seq<WaitingClient>,
    after: Seq<WaitingClient>,
    id: Seq<char>,
    r: Option<(ActivePlayerSession, i32)>,
) -> bool {
    match find_client(kept, id) {
        Some(i) => after == kept.remove(i) && r == Some((kept[i].session, kept[i].assigned_time_ms)),
        None => after == kept && r is None,
    }
}

/// The lobby's view of a waiting client.
pub open spec fn client_info_of(c: WaitingClient, i: WaitingClientInfo) -> bool {
    &&& i.client_id@ == c.client_id@
    &&& i.player_name@ == client_name(c)
    &&& i.assigned_time_ms == c.assigned_time_ms
}

/// The clients waiting for a person, in the order they came.
pub struct WaitHumanQueue {
    clients: Vec<WaitingClient>,
    next_id: u64,
    numbers: Ghost<Seq<nat>>,
}

impl WaitHumanQueue {
    /// The waiting clients, in the order they came.
    pub closed spec fn waiting(&self) -> Seq<WaitingClient> {
        self.clients@
    }

    /// The number of the next id.
    pub closed spec fn next_number(&self) -> u64 {
        self.next_id
    }

    /// Whether another id can still be numbered.
    pub fn ids_available(&self) -> (r: bool)
        ensures
            r == (self.next_number() < u64::MAX),
    {
        self.next_id < u64::MAX
    }

    /// Every waiting client carries the id `client_n` for its own number
    /// n, below the next number; the numbers rise along the queue.
    pub closed spec fn wf(&self) -> bool {
        &&& self.numbers@.len() == self.clients@.len()
        &&& forall|i: int|
            0 <= i < self.clients@.len() ==> (#[trigger] self.clients@[i]).client_id@
                == client_id_text(self.numbers@[i])
        &&& forall|i: int| 0 <= i < self.numbers@.len() ==> #[trigger] self.numbers@[i] < self.next_id
        &&& forall|i: int, j: int|
            0 <= i < j < self.numbers@.len() ==> self.numbers@[i] < self.numbers@[j]
    }

    /// An empty queue; the first id is `client_1`.
    pub fn new() -> (r: WaitHumanQueue)
        ensures
            r.wf(),
            r.waiting() == Seq::<WaitingClient>::empty(),
            r.next_number() == 1,
    {
        WaitHumanQueue { clients: Vec::new(), next_id: 1, numbers: Ghost(Seq::empty()) }
    }

    /// Adds a client and gives its id, `client_n` for the next number n.
    pub fn register(&mut self, session: ActivePlayerSession, assigned_time_ms: i32) -> (r: String)
        requires
            old(self).wf(),
            old(self).next_number() < u64::MAX,
        ensures
            final(self).wf(),
            forall|i: int|
                0 <= i < old(self).waiting().len() ==> (#[trigger] old(self).waiting()[i]).client_id@
                    != r@,
            r@ == client_id_text(old(self).next_number() as nat),
            final(self).next_number() == old(self).next_number() + 1,
            final(self).waiting().len() == old(self).waiting().len() + 1,
            final(self).waiting().drop_last() == old(self).waiting(),
            final(self).waiting().last().client_id@ == r@,
            final(self).waiting().last().session == session,
            final(self).waiting().last().assigned_time_ms == assigned_time_ms,
    {
        let mut client_id = String::from_str("client_");
        push_decimal(&mut client_id, self.next_id);
        let n = self.next_id;
        proof {
            reveal_strlit("client_");
            assert forall|i: int| 0 <= i < self.clients@.len() implies (
            #[trigger] self.clients@[i]).client_id@ != client_id@ by {
                if self.clients@[i].client_id@ == client_id@ {
                    let k = self.numbers@[i];
                    assert(decimal(k) =~= self.clients@[i].client_id@.skip(7));
                    assert(decimal(n as nat) =~= client_id@.skip(7));
                    lemma_decimal_injective(k, n as nat);
                }
            }
        }
        self.next_id = self.next_id + 1;
        let ghost before = self.clients@;
        let ghost old_numbers = self.numbers@;
        self.clients.push(
            WaitingClient { client_id: client_id.clone(), session, assigned_time_ms },
        );
        self.numbers = Ghost(old_numbers.push(n as nat));
        assert(self.clients@.drop_last() =~= before);
        proof {
            assert forall|i: int| 0 <= i < self.clients@.len() implies {
                &&& (#[trigger] self.clients@[i]).client_id@ == client_id_text(self.numbers@[i])
                &&& self.numbers@[i] < self.next_id
            } by {
                if i < self.clients@.len() - 1 {
                    assert(self.numbers@[i] == old_numbers[i]);
                    assert(self.clients@[i] == before[i]);
                }
            }
            assert forall|a: int, b: int|
                0 <= a < b < self.numbers@.len() implies self.numbers@[a] < self.numbers@[b] by {
                assert(self.numbers@[a] == old_numbers[a]);
                if b < self.numbers@.len() - 1 {
                    assert(self.numbers@[b] == old_numbers[b]);
                }
            }
        }
        client_id
    }

    /// Drops the clients whose mark is set.
    pub fn remove_marked(&mut self, marks: &Vec<bool>)
        requires
            old(self).wf(),
            marks@.len() == old(self).waiting().len(),
        ensures
            final(self).wf(),
            final(self).waiting() == keep_unmarked(old(self).waiting(), marks@),
            final(self).next_number() == old(self).next_number(),
    {
        let mut rest: Vec<WaitingClient> = Vec::new();
        std::mem::swap(&mut rest, &mut self.clients);
        let ghost orig = rest@;
        let ghost nums = self.numbers@;
        let ghost mut kept_nums: Seq<nat> = Seq::empty();
        let n = rest.len();
        let mut i: usize = 0;
        assert(orig.skip(0) =~= orig);
        while i < n
            invariant
                n == orig.len(),
                nums.len() == n,
                marks@.len() == n,
                i <= n,
                rest@ == orig.skip(i as int),
                self.clients@ == keep_unmarked(orig.take(i as int), marks@.take(i as int)),
                self.next_id == old(self).next_id,
                forall|k: int| 0 <= k < n ==> (#[trigger] orig[k]).client_id@ == client_id_text(nums[k]),
                forall|k: int| 0 <= k < n ==> #[trigger] nums[k] < self.next_id,
                forall|a: int, b: int| 0 <= a < b < n ==> nums[a] < nums[b],
                kept_nums.len() == self.clients@.len(),
                forall|a: int|
                    0 <= a < kept_nums.len() ==> (#[trigger] self.clients@[a]).client_id@
                        == client_id_text(kept_nums[a]),
                forall|a: int| 0 <= a < kept_nums.len() ==> #[trigger] kept_nums[a] < self.next_id,
                forall|a: int, b: int| 0 <= a < b < kept_nums.len() ==> kept_nums[a] < kept_nums[b],
                forall|a: int, k: int| 0 <= a < kept_nums.len() && i <= k < n ==> kept_nums[a] < nums[k],
            decreases n - i,
        {
            let c = rest.remove(0);
            assert(c == orig[i as int]);
            if !marks[i] {
                let ghost before = self.clients@;
                let ghost before_nums = kept_nums;
                self.clients.push(c);
                proof {
                    kept_nums = kept_nums.push(nums[i as int]);
                    assert forall|a: int| 0 <= a < kept_nums.len() implies (#[trigger] self.clients@[a]).client_id@
                        == client_id_text(kept_nums[a]) by {
                        if a < before.len() {
                            assert(self.clients@[a] == before[a]);
                            assert(kept_nums[a] == before_nums[a]);
                        }
                    }
                    assert forall|a: int, k: int| 0 <= a < kept_nums.len() && i + 1 <= k < n implies kept_nums[a] < nums[k] by {
                        if a < before_nums.len() {
                            assert(kept_nums[a] == before_nums[a]);
                        }
                    }
                }
            }
            proof {
                assert(orig.take(i + 1).drop_last() =~= orig.take(i as int));
                assert(marks@.take(i + 1).drop_last() =~= marks@.take(i as int));
                assert(rest@ =~= orig.skip(i + 1));
            }
            i += 1;
        }
        assert(orig.take(n as int) =~= orig);
        assert(marks@.take(n as int) =~= marks@);
        self.numbers = Ghost(kept_nums);
    }

    fn closed_marks(&self) -> (r: Vec<bool>)
        ensures
            r@.len() == self.waiting().len(),
    {
        let mut marks: Vec<bool> = Vec::new();
        let mut i: usize = 0;
        while i < self.clients.len()
            invariant
                i <= self.clients@.len(),
                marks@.len() == i,
            decreases self.clients.len() - i,
        {
            marks.push(self.clients[i].session.is_closed());
            i += 1;
        }
        marks
    }

    /// Takes out the client with id `client_id`, after dropping the clients
    /// whose connection has gone away; gives its session and time.
    pub fn take(&mut self, client_id: &str) -> (r: Option<(ActivePlayerSession, i32)>)
        requires
            old(self).wf(),
        ensures
            final(self).wf(),
            final(self).next_number() == old(self).next_number(),
            exists|marks: Seq<bool>|
                marks.len() == old(self).waiting().len() && take_outcome(
                    #[trigger] keep_unmarked(old(self).waiting(), marks),
                    final(self).waiting(),
                    client_id@,
                    r,
                ),
    {
        let marks = self.closed_marks();
        self.remove_marked(&marks);
        let ghost kept = self.clients@;
        assert(kept == keep_unmarked(old(self).waiting(), marks@));
        let mut i: usize = 0;
        while i < self.clients.len()
            invariant
                i <= self.clients@.len(),
                self.wf(),
                self.clients@ == kept,
                kept == keep_unmarked(old(self).waiting(), marks@),
                marks@.len() == old(self).waiting().len(),
                self.next_id == old(self).next_id,
                forall|j: int| 0 <= j < i ==> (#[trigger] self.clients@[j]).client_id@ != client_id@,
            decreases self.clients.len() - i,
        {
            if str_eq(self.clients[i].client_id.as_str(), client_id) {
                assert(find_client(kept, client_id@) == Some(i as int));
                let ghost old_numbers = self.numbers@;
                let c = self.clients.remove(i);
                self.numbers = Ghost(old_numbers.remove(i as int));
                proof {
                    assert forall|k: int| 0 <= k < self.clients@.len() implies {
                        &&& (#[trigger] self.clients@[k]).client_id@ == client_id_text(self.numbers@[k])
                        &&& self.numbers@[k] < self.next_id
                    } by {
                        if k < i {
                            assert(self.clients@[k] == kept[k]);
                        } else {
                            assert(self.clients@[k] == kept[k + 1]);
                        }
                    }
                    assert forall|a: int, b: int|
                        0 <= a < b < self.numbers@.len() implies self.numbers@[a] < self.numbers@[b] by {
                        let a2 = if a < i { a } else { a + 1 };
                        let b2 = if b < i { b } else { b + 1 };
                        assert(self.numbers@[a] == old_numbers[a2]);
                        assert(self.numbers@[b] == old_numbers[b2]);
                    }
                }
                let res = Some((c.session, c.assigned_time_ms));
                assert(self.clients@ == kept.remove(i as int));
                assert(take_outcome(keep_unmarked(old(self).waiting(), marks@), self.clients@, client_id@, res));
                return res;
            }
            i += 1;
        }
        None
    }

    /// Forgets the clients named `player_name`.
    pub fn remove_by_name(&mut self, player_name: &str)
        requires
            old(self).wf(),
        ensures
            final(self).wf(),
            final(self).waiting() == clients_without(old(self).waiting(), player_name@),
            final(self).next_number() == old(self).next_number(),
    {
        let mut marks: Vec<bool> = Vec::new();
        let mut i: usize = 0;
        while i < self.clients.len()
            invariant
                i <= self.clients@.len(),
                marks@.len() == i,
                forall|k: int|
                    0 <= k < i ==> #[trigger] marks@[k] == (client_name(self.clients@[k])
                        == player_name@),
            decreases self.clients.len() - i,
        {
            marks.push(str_eq(self.clients[i].session.handle.player_name.as_str(), player_name));
            i += 1;
        }
        proof {
            lemma_marks_by_client_name(self.clients@, marks@, player_name@);
        }
        self.remove_marked(&marks);
    }

    /// Drops the clients whose connection has gone away, and lists the
    /// others.
    pub fn list(&mut self) -> (r: Vec<WaitingClientInfo>)
        requires
            old(self).wf(),
        ensures
            final(self).wf(),
            exists|marks: Seq<bool>|
                marks.len() == old(self).waiting().len() && final(self).waiting()
                    == keep_unmarked(old(self).waiting(), marks),
            final(self).next_number() == old(self).next_number(),
            r@.len() == final(self).waiting().len(),
            forall|i: int|
                0 <= i < r@.len() ==> client_info_of(final(self).waiting()[i], #[trigger] r@[i]),
    {
        let marks = self.closed_marks();
        self.remove_marked(&marks);
        let mut out: Vec<WaitingClientInfo> = Vec::new();
        let mut i: usize = 0;
        while i < self.clients.len()
            invariant
                i <= self.clients@.len(),
                out@.len() == i,
                forall|k: int| 0 <= k < i ==> client_info_of(self.clients@[k], #[trigger] out@[k]),
            decreases self.clients.len() - i,
        {
            let c = &self.clients[i];
            out.push(
                WaitingClientInfo {
                    client_id: c.client_id.clone(),
                    player_name: c.session.handle.player_name.clone(),
                    assigned_time_ms: c.assigned_time_ms,
                },
            );
            i += 1;
        }
        out
    }
}

proof fn lemma_marks_by_client_name(s: Seq<WaitingClient>, marks: Seq<bool>, name: Seq<char>)
    requires
        marks.len() == s.len(),
        forall|k: int| 0 <= k < s.len() ==> #[trigger] marks[k] == (client_name(s[k]) == name),
    ensures
        keep_unmarked(s, marks) == clients_without(s, name),
    decreases s.len(),
{
    if s.len() > 0 {
        let s2 = s.drop_last();
        let m2 = marks.drop_last();
        assert forall|k: int| 0 <= k < s2.len() implies #[trigger] m2[k] == (client_name(s2[k]) == name) by {
            assert(m2[k] == marks[k] && s2[k] == s[k]);
        }
        lemma_marks_by_client_name(s2, m2, name);
        assert(marks.last() == marks[s.len() - 1]);
    }
}

/// No two waiting clients share an id: taking the id a client was given
/// at registration can only ever take that client.
pub proof fn law_client_ids_distinct(q: WaitHumanQueue, i: int, j: int)
    requires
        q.wf(),
        0 <= i < j < q.waiting().len(),
    ensures
        q.waiting()[i].client_id@ != q.waiting()[j].client_id@,
{
    let a = q.numbers@[i];
    let b = q.numbers@[j];
    if q.waiting()[i].client_id@ == q.waiting()[j].client_id@ {
        reveal_strlit("client_");
        assert(decimal(a) =~= q.waiting()[i].client_id@.skip(7));
        assert(decimal(b) =~= q.waiting()[j].client_id@.skip(7));
        lemma_decimal_injective(a, b);
    }
}

/// What `find_client` gives: the first client with the id, or none.
pub proof fn lemma_find_client(s: Seq<WaitingClient>, id: Seq<char>)
    ensures
        match find_client(s, id) {
            Some(i) => 0 <= i < s.len() && s[i].client_id@ == id && forall|j: int|
                0 <= j < i ==> (#[trigger] s[j]).client_id@ != id,
            None => forall|j: int| 0 <= j < s.len() ==> (#[trigger] s[j]).client_id@ != id,
        },
{
    if exists|i: int| 0 <= i < s.len() && (#[trigger] s[i]).client_id@ == id {
        let p = |c: WaitingClient| c.client_id@ == id;
        assert(exists|i: int| 0 <= i < s.len() && p(#[trigger] s[i]));
        let w = crate::search::lemma_first_witness(s, p, 0);
        assert(0 <= w < s.len() && s[w].client_id@ == id && forall|j: int|
            0 <= j < w ==> (#[trigger] s[j]).client_id@ != id);
    }
}

/// Whether `p` is a person named `name`.
pub open spec fn person_named(p: Participant, name: Seq<char>) -> bool {
    p matches Participant::Human(h) && h.handle.player_name@ == name
}

/// The waiting client's session among the two players given back by its
/// game: the first of them that is a person named `client_name`, if any.
pub fn returned_client(p1: Participant, p2: Participant, client_name: &str) -> (r: Option<ActivePlayerSession>)
    ensures
        person_named(p1, client_name@) ==> r == Some(p1->Human_0),
        !person_named(p1, client_name@) && person_named(p2, client_name@) ==> r == Some(p2->Human_0),
        !person_named(p1, client_name@) && !person_named(p2, client_name@) ==> r is None,
{
    match p1 {
        Participant::Human(h1) => {
            if str_eq(h1.handle.player_name.as_str(), client_name) {
                return Some(h1);
            }
        },
        _ => {},
    }
    match p2 {
        Participant::Human(h2) => {
            if str_eq(h2.handle.player_name.as_str(), client_name) {
                return Some(h2);
            }
        },
        _ => {},
    }
    None
}

} // verus!
