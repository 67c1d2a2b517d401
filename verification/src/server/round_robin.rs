//! The order in which a room's tournament plays its games: every round,
//! each participant meets each later one, the first participant first.
use vstd::prelude::*;

verus! {

/// The games of participant `i` against participants `i + 1 .. j`, in that
/// order.
pub open spec fn row_upto(i: int, j: int) -> Seq<(int, int)>
    decreases j - i,
{
    if j <= i + 1 {
        Seq::empty()
    } else {
        row_upto(i, j - 1).push((i, j - 1))
    }
}

/// The games among `n` participants whose first participant is below `i`:
/// participant 0 against each later one, then participant 1, and so on.
pub open spec fn rows_upto(n: int, i: int) -> Seq<(int, int)>
    decreases i,
{
    if i <= 0 {
        Seq::empty()
    } else {
        rows_upto(n, i - 1) + row_upto(i - 1, n)
    }
}

/// One round among `n` participants.
pub open spec fn round_games(n: int) -> Seq<(int, int)> {
    rows_upto(n, n)
}

/// The games `s` as played in round `r`: (round, first, second).
pub open spec fn tagged(s: Seq<(int, int)>, r: int) -> Seq<(int, int, int)> {
    s.map_values(|p: (int, int)| (r, p.0, p.1))
}

/// Rounds 1 to `r` among `n` participants, round after round.
pub open spec fn schedule_upto(n: int, r: int) -> Seq<(int, int, int)>
    decreases r,
{
    if r <= 0 {
        Seq::empty()
    } else {
        schedule_upto(n, r - 1) + tagged(round_games(n), r)
    }
}

/// A game of the schedule as numbers.
pub open spec fn game_ints(g: (u32, usize, usize)) -> (int, int, int) {
    (g.0 as int, g.1 as int, g.2 as int)
}

/// The games of a tournament of `match_count` rounds among `n`
/// participants, in playing order, each as (round, first, second) with
/// rounds counted from 1 and participants from 0.
pub fn round_robin_schedule(n: usize, match_count: u32) -> (r: Vec<(u32, usize, usize)>)
    ensures
        r@.map_values(|g: (u32, usize, usize)| game_ints(g)) == schedule_upto(
            n as int,
            match_count as int,
        ),
{
    let mut out: Vec<(u32, usize, usize)> = Vec::new();
    let mut done: u32 = 0;
    assert(out@.map_values(|g: (u32, usize, usize)| game_ints(g)) =~= schedule_upto(n as int, 0));
    while done < match_count
        invariant
            done <= match_count,
            out@.map_values(|g: (u32, usize, usize)| game_ints(g)) == schedule_upto(
                n as int,
                done as int,
            ),
        decreases match_count - done,
    {
        let round = done + 1;
        let ghost base = schedule_upto(n as int, done as int);
        let mut i: usize = 0;
        assert(base + tagged(rows_upto(n as int, 0), round as int) =~= base);
        while i < n
            invariant
                i <= n,
                round == done + 1,
                base == schedule_upto(n as int, done as int),
                out@.map_values(|g: (u32, usize, usize)| game_ints(g)) == base + tagged(
                    rows_upto(n as int, i as int),
                    round as int,
                ),
            decreases n - i,
        {
            let mut j: usize = i + 1;
            assert(rows_upto(n as int, i as int) + row_upto(i as int, j as int) =~= rows_upto(
                n as int,
                i as int,
            ));
            while j < n
                invariant
                    i < n,
                    i + 1 <= j <= n,
                    round == done + 1,
                    base == schedule_upto(n as int, done as int),
                    out@.map_values(|g: (u32, usize, usize)| game_ints(g)) == base + tagged(
                        rows_upto(n as int, i as int) + row_upto(i as int, j as int),
                        round as int,
                    ),
                decreases n - j,
            {
                let ghost before = out@;
                let ghost a = rows_upto(n as int, i as int);
                let ghost b = row_upto(i as int, j as int);
                out.push((round, i, j));
                proof {
                    assert(out@.map_values(|g: (u32, usize, usize)| game_ints(g)) =~= before.map_values(
                        |g: (u32, usize, usize)| game_ints(g),
                    ).push((round as int, i as int, j as int)));
                    assert(row_upto(i as int, j + 1) == b.push((i as int, j as int)));
                    assert(a + b.push((i as int, j as int)) =~= (a + b).push((i as int, j as int)));
                    assert(tagged((a + b).push((i as int, j as int)), round as int) =~= tagged(
                        a + b,
                        round as int,
                    ).push((round as int, i as int, j as int)));
                    assert(base + tagged(a + b, round as int).push(
                        (round as int, i as int, j as int),
                    ) =~= (base + tagged(a + b, round as int)).push(
                        (round as int, i as int, j as int),
                    ));
                }
                j += 1;
            }
            assert(rows_upto(n as int, i + 1) == rows_upto(n as int, i as int) + row_upto(
                i as int,
                n as int,
            ));
            i += 1;
        }
        done = done + 1;
    }
    out
}

/// (a, b) comes before (c, d): by first participant, then by second.
pub open spec fn before2(x: (int, int), y: (int, int)) -> bool {
    x.0 < y.0 || (x.0 == y.0 && x.1 < y.1)
}

/// (r, a, b) comes before (q, c, d): by round, then by pairing.
pub open spec fn before3(x: (int, int, int), y: (int, int, int)) -> bool {
    x.0 < y.0 || (x.0 == y.0 && before2((x.1, x.2), (y.1, y.2)))
}

proof fn lemma_row(i: int, j: int)
    ensures
        row_upto(i, j).len() == if j > i + 1 {
            j - i - 1
        } else {
            0
        },
        forall|k: int| 0 <= k < row_upto(i, j).len() ==> #[trigger] row_upto(i, j)[k] == (i, i + 1 + k),
    decreases j - i,
{
    if j > i + 1 {
        lemma_row(i, j - 1);
        let s = row_upto(i, j - 1);
        assert forall|k: int| 0 <= k < row_upto(i, j).len() implies #[trigger] row_upto(i, j)[k] == (
            i,
            i + 1 + k,
        ) by {
            if k < s.len() {
                assert(row_upto(i, j)[k] == s[k]);
            }
        }
    }
}

proof fn lemma_rows(n: int, i: int)
    requires
        0 <= i <= n,
    ensures
        forall|k: int|
            0 <= k < rows_upto(n, i).len() ==> {
                let p = #[trigger] rows_upto(n, i)[k];
                0 <= p.0 < i && p.0 < p.1 < n
            },
        forall|a: int, b: int|
            0 <= a < i && a < b < n ==> #[trigger] rows_upto(n, i).contains((a, b)),
        forall|k1: int, k2: int|
            0 <= k1 < k2 < rows_upto(n, i).len() ==> before2(
                #[trigger] rows_upto(n, i)[k1],
                #[trigger] rows_upto(n, i)[k2],
            ),
    decreases i,
{
    if i > 0 {
        lemma_rows(n, i - 1);
        lemma_row(i - 1, n);
        let s = rows_upto(n, i - 1);
        let t = row_upto(i - 1, n);
        let u = rows_upto(n, i);
        assert(u == s + t);
        assert forall|k: int| 0 <= k < u.len() implies {
            let p = #[trigger] u[k];
            0 <= p.0 < i && p.0 < p.1 < n
        } by {
            if k < s.len() {
                assert(u[k] == s[k]);
            } else {
                assert(u[k] == t[k - s.len()]);
            }
        }
        assert forall|a: int, b: int| 0 <= a < i && a < b < n implies #[trigger] u.contains((a, b)) by {
            if a < i - 1 {
                assert(s.contains((a, b)));
                let k = choose|k: int| 0 <= k < s.len() && s[k] == (a, b);
                assert(u[k] == s[k]);
            } else {
                let k = b - a - 1;
                assert(t[k] == (a, b));
                assert(u[s.len() + k] == t[k]);
            }
        }
        assert forall|k1: int, k2: int| 0 <= k1 < k2 < u.len() implies before2(
            #[trigger] u[k1],
            #[trigger] u[k2],
        ) by {
            if k2 < s.len() {
                assert(u[k1] == s[k1] && u[k2] == s[k2]);
            } else if k1 < s.len() {
                assert(u[k1] == s[k1] && u[k2] == t[k2 - s.len()]);
            } else {
                assert(u[k1] == t[k1 - s.len()] && u[k2] == t[k2 - s.len()]);
            }
        }
    }
}

proof fn lemma_schedule(n: int, r: int)
    requires
        0 <= n,
        0 <= r,
    ensures
        forall|k: int|
            0 <= k < schedule_upto(n, r).len() ==> {
                let g = #[trigger] schedule_upto(n, r)[k];
                1 <= g.0 <= r && 0 <= g.1 < g.2 < n
            },
        forall|q: int, a: int, b: int|
            1 <= q <= r && 0 <= a < b < n ==> #[trigger] schedule_upto(n, r).contains((q, a, b)),
        forall|k1: int, k2: int|
            0 <= k1 < k2 < schedule_upto(n, r).len() ==> before3(
                #[trigger] schedule_upto(n, r)[k1],
                #[trigger] schedule_upto(n, r)[k2],
            ),
    decreases r,
{
    if r > 0 {
        lemma_schedule(n, r - 1);
        lemma_rows(n, n);
        let s = schedule_upto(n, r - 1);
        let g = round_games(n);
        let t = tagged(g, r);
        let u = schedule_upto(n, r);
        assert(u == s + t);
        assert forall|k: int| 0 <= k < u.len() implies {
            let x = #[trigger] u[k];
            1 <= x.0 <= r && 0 <= x.1 < x.2 < n
        } by {
            if k < s.len() {
                assert(u[k] == s[k]);
            } else {
                assert(u[k] == t[k - s.len()]);
                assert(t[k - s.len()] == (r, g[k - s.len()].0, g[k - s.len()].1));
            }
        }
        assert forall|q: int, a: int, b: int| 1 <= q <= r && 0 <= a < b < n implies #[trigger] u.contains(
            (q, a, b),
        ) by {
            if q < r {
                assert(s.contains((q, a, b)));
                let k = choose|k: int| 0 <= k < s.len() && s[k] == (q, a, b);
                assert(u[k] == s[k]);
            } else {
                assert(g.contains((a, b)));
                let k = choose|k: int| 0 <= k < g.len() && g[k] == (a, b);
                assert(t[k] == (r, a, b));
                assert(u[s.len() + k] == t[k]);
            }
        }
        assert forall|k1: int, k2: int| 0 <= k1 < k2 < u.len() implies before3(
            #[trigger] u[k1],
            #[trigger] u[k2],
        ) by {
            if k2 < s.len() {
                assert(u[k1] == s[k1] && u[k2] == s[k2]);
            } else if k1 < s.len() {
                assert(u[k1] == s[k1] && u[k2] == t[k2 - s.len()]);
            } else {
                let m1 = k1 - s.len();
                let m2 = k2 - s.len();
                assert(u[k1] == t[m1] && u[k2] == t[m2]);
                assert(t[m1] == (r, g[m1].0, g[m1].1));
                assert(t[m2] == (r, g[m2].0, g[m2].1));
                assert(before2(g[m1], g[m2]));
            }
        }
    }
}

/// A tournament of `match_count` rounds among `n` participants pairs every
/// two participants once in every round and plays no other game: the
/// schedule holds (r, a, b) exactly when 1 <= r <= `match_count` and
/// 0 <= a < b < `n`, and never holds a game twice.
pub proof fn law_round_robin(n: int, match_count: int)
    requires
        0 <= n,
        0 <= match_count,
    ensures
        forall|r: int, a: int, b: int|
            #![trigger schedule_upto(n, match_count).contains((r, a, b))]
            schedule_upto(n, match_count).contains((r, a, b)) <==> (1 <= r <= match_count && 0 <= a
                < b < n),
        forall|k1: int, k2: int|
            0 <= k1 < k2 < schedule_upto(n, match_count).len() ==> #[trigger] schedule_upto(
                n,
                match_count,
            )[k1] != #[trigger] schedule_upto(n, match_count)[k2],
{
    lemma_schedule(n, match_count);
    let s = schedule_upto(n, match_count);
    assert forall|r: int, a: int, b: int| #[trigger] s.contains((r, a, b)) <==> (1 <= r
        <= match_count && 0 <= a < b < n) by {
        if s.contains((r, a, b)) {
            let k = choose|k: int| 0 <= k < s.len() && s[k] == (r, a, b);
            assert(s[k] == (r, a, b));
        }
        if 1 <= r <= match_count && 0 <= a < b < n {
            assert(s.contains((r, a, b)));
        }
    }
    assert forall|k1: int, k2: int| 0 <= k1 < k2 < s.len() implies #[trigger] s[k1] != #[trigger] s[k2] by {
        assert(before3(s[k1], s[k2]));
    }
}

} // verus!
