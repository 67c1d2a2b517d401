//! Laws of the board: where legal moves lie, and how a move changes the
//! stone counts.
use vstd::prelude::*;
use super::board::{cell, dir_flips, dir_of, flips, flips_upto, idx, is_legal, legal_moves, line_flips, moves_upto, on_board, paint, play, square, stones, count_upto, Pos};
use super::color::Color;

verus! {

/// `j` steps of length one in direction `d` (-1, 0 or 1).
pub open spec fn scale(j: int, d: int) -> int {
    if d > 0 {
        j
    } else if d < 0 {
        -j
    } else {
        0
    }
}

/// -1, 0 or 1 by the sign of `v`.
pub open spec fn sign(v: int) -> int {
    if v > 0 {
        1
    } else if v < 0 {
        -1
    } else {
        0
    }
}

/// The position of a direction in the search order.
pub open spec fn dir_code(sx: int, sy: int) -> int {
    if sx == -1 && sy == -1 {
        0
    } else if sx == 0 && sy == -1 {
        1
    } else if sx == 1 && sy == -1 {
        2
    } else if sx == -1 && sy == 0 {
        3
    } else if sx == 1 && sy == 0 {
        4
    } else if sx == -1 && sy == 1 {
        5
    } else if sx == 0 && sy == 1 {
        6
    } else if sx == 1 && sy == 1 {
        7
    } else {
        8
    }
}

/// No square occurs twice in `s`.
pub open spec fn no_repeats(s: Seq<Pos>) -> bool {
    forall|i: int, j: int| 0 <= i < j < s.len() ==> s[i] != s[j]
}

proof fn lemma_line_shape(g: Seq<Color>, c: Color, x0: int, y0: int, dx: int, dy: int, fuel: nat)
    requires
        -1 <= dx <= 1,
        -1 <= dy <= 1,
    ensures
        line_flips(g, c, x0, y0, dx, dy, fuel) matches Some(run) ==> forall|j: int|
            0 <= j < run.len() ==> {
                &&& (#[trigger] run[j]).0 as int == x0 + scale(j, dx)
                &&& run[j].1 as int == y0 + scale(j, dy)
                &&& on_board(run[j].0 as int, run[j].1 as int)
                &&& cell(g, run[j].0 as int, run[j].1 as int) == c.opposite()
            },
    decreases fuel,
{
    if fuel > 0 && on_board(x0, y0) && cell(g, x0, y0) == c.opposite() {
        lemma_line_shape(g, c, x0 + dx, y0 + dy, dx, dy, (fuel - 1) as nat);
        match line_flips(g, c, x0 + dx, y0 + dy, dx, dy, (fuel - 1) as nat) {
            Some(rest) => {
                let run = seq![(x0 as usize, y0 as usize)] + rest;
                assert forall|j: int| 0 <= j < run.len() implies {
                    &&& (#[trigger] run[j]).0 as int == x0 + scale(j, dx)
                    &&& run[j].1 as int == y0 + scale(j, dy)
                    &&& on_board(run[j].0 as int, run[j].1 as int)
                    &&& cell(g, run[j].0 as int, run[j].1 as int) == c.opposite()
                } by {
                    if j > 0 {
                        assert(run[j] == rest[j - 1]);
                    }
                }
            },
            None => {},
        }
    }
}

proof fn lemma_dir_shape(g: Seq<Color>, c: Color, x: int, y: int, i: int)
    requires
        0 <= i < 8,
    ensures
        forall|j: int|
            0 <= j < dir_flips(g, c, x, y, i).len() ==> {
                let e = #[trigger] dir_flips(g, c, x, y, i)[j];
                &&& e.0 as int == x + scale(j + 1, dir_of(i).0)
                &&& e.1 as int == y + scale(j + 1, dir_of(i).1)
                &&& on_board(e.0 as int, e.1 as int)
                &&& cell(g, e.0 as int, e.1 as int) == c.opposite()
                &&& dir_code(sign(e.0 - x), sign(e.1 - y)) == i
            },
        no_repeats(dir_flips(g, c, x, y, i)),
{
    let (dx, dy) = dir_of(i);
    lemma_line_shape(g, c, x + dx, y + dy, dx, dy, 9);
}

/// The stones that a move turns: each lies in the playing area, holds the
/// opponent's colour, and occurs once.
pub proof fn lemma_flips_shape(g: Seq<Color>, c: Color, x: int, y: int, n: nat)
    requires
        n <= 8,
    ensures
        forall|j: int|
            0 <= j < flips_upto(g, c, x, y, n).len() ==> {
                let e = #[trigger] flips_upto(g, c, x, y, n)[j];
                &&& on_board(e.0 as int, e.1 as int)
                &&& cell(g, e.0 as int, e.1 as int) == c.opposite()
                &&& dir_code(sign(e.0 - x), sign(e.1 - y)) < n
            },
        no_repeats(flips_upto(g, c, x, y, n)),
    decreases n,
{
    if n > 0 {
        lemma_flips_shape(g, c, x, y, (n - 1) as nat);
        lemma_dir_shape(g, c, x, y, n - 1);
        let a = flips_upto(g, c, x, y, (n - 1) as nat);
        let b = dir_flips(g, c, x, y, n - 1);
        let s = a + b;
        assert(s == flips_upto(g, c, x, y, n));
        assert forall|j: int| 0 <= j < s.len() implies {
            let e = #[trigger] s[j];
            &&& on_board(e.0 as int, e.1 as int)
            &&& cell(g, e.0 as int, e.1 as int) == c.opposite()
            &&& dir_code(sign(e.0 - x), sign(e.1 - y)) < n
        } by {
            if j >= a.len() {
                assert(s[j] == b[j - a.len()]);
            } else {
                assert(s[j] == a[j]);
            }
        }
        assert forall|i: int, j: int| 0 <= i < j < s.len() implies s[i] != s[j] by {
            if j < a.len() {
                assert(s[i] == a[i] && s[j] == a[j]);
            } else if i >= a.len() {
                assert(s[i] == b[i - a.len()] && s[j] == b[j - a.len()]);
            } else {
                assert(s[i] == a[i] && s[j] == b[j - a.len()]);
            }
        }
    }
}

proof fn lemma_div8(m: int)
    requires
        0 <= m < 64,
    ensures
        m == (m / 8) * 8 + m % 8,
        0 <= m / 8 < 8,
        0 <= m % 8 < 8,
{
    assert(m == (m / 8) * 8 + m % 8 && 0 <= m / 8 < 8 && 0 <= m % 8 < 8) by (nonlinear_arith)
        requires
            0 <= m < 64,
    ;
}

proof fn lemma_square_inverse(m: int, px: int, py: int)
    requires
        0 <= m < 64,
        on_board(px, py),
    ensures
        (idx(square(m).0 as int, square(m).1 as int) == idx(px, py)) <==> (m == (px - 1) * 8 + (
        py - 1)),
        on_board(square(m).0 as int, square(m).1 as int),
{
    lemma_div8(m);
    let q = (px - 1) * 8 + (py - 1);
    assert(q / 8 == px - 1 && q % 8 == py - 1) by (nonlinear_arith)
        requires
            q == (px - 1) * 8 + (py - 1),
            1 <= px <= 8,
            1 <= py <= 8,
    ;
}

/// The count of `c` after writing `v` into on-board square (px, py).
proof fn lemma_count_update(g: Seq<Color>, px: int, py: int, v: Color, c: Color, k: nat)
    requires
        on_board(px, py),
        g.len() == 100,
        k <= 64,
    ensures
        count_upto(g.update(idx(px, py), v), c, k) + (if (px - 1) * 8 + (py - 1) < k && cell(
            g,
            px,
            py,
        ) == c {
            1int
        } else {
            0int
        }) == count_upto(g, c, k) + (if (px - 1) * 8 + (py - 1) < k && v == c {
            1int
        } else {
            0int
        }),
    decreases k,
{
    if k > 0 {
        lemma_count_update(g, px, py, v, c, (k - 1) as nat);
        lemma_square_inverse(k - 1, px, py);
        let s = square(k - 1);
        let g2 = g.update(idx(px, py), v);
        if k - 1 == (px - 1) * 8 + (py - 1) {
            assert(s.0 as int == px && s.1 as int == py);
        } else {
            assert(idx(s.0 as int, s.1 as int) != idx(px, py));
            assert(cell(g2, s.0 as int, s.1 as int) == cell(g, s.0 as int, s.1 as int));
        }
    }
}

proof fn lemma_paint_unchanged(g: Seq<Color>, ps: Seq<Pos>, c: Color, q: Pos)
    requires
        g.len() == 100,
        forall|j: int|
            0 <= j < ps.len() ==> on_board(#[trigger] ps[j].0 as int, ps[j].1 as int),
        on_board(q.0 as int, q.1 as int),
        !ps.contains(q),
    ensures
        cell(paint(g, ps, c), q.0 as int, q.1 as int) == cell(g, q.0 as int, q.1 as int),
        paint(g, ps, c).len() == 100,
    decreases ps.len(),
{
    if ps.len() > 0 {
        let init = ps.drop_last();
        assert forall|j: int| 0 <= j < init.len() implies on_board(
            #[trigger] init[j].0 as int,
            init[j].1 as int,
        ) by {
            assert(init[j] == ps[j]);
        }
        if init.contains(q) {
            let j = choose|j: int| 0 <= j < init.len() && init[j] == q;
            assert(ps[j] == q);
        }
        lemma_paint_unchanged(g, init, c, q);
        assert(ps.last() != q);
        assert(on_board(ps.last().0 as int, ps.last().1 as int));
    }
}

/// Painting `n` distinct on-board squares of colour `a` with colour `c`
/// raises the count of `c` by `n` and lowers that of `a` by `n`.
proof fn lemma_paint_counts(g: Seq<Color>, ps: Seq<Pos>, c: Color, a: Color)
    requires
        g.len() == 100,
        c != a,
        no_repeats(ps),
        forall|j: int|
            0 <= j < ps.len() ==> {
                &&& on_board(#[trigger] ps[j].0 as int, ps[j].1 as int)
                &&& cell(g, ps[j].0 as int, ps[j].1 as int) == a
            },
    ensures
        stones(paint(g, ps, c), c) == stones(g, c) + ps.len(),
        stones(paint(g, ps, c), a) + ps.len() == stones(g, a),
        paint(g, ps, c).len() == 100,
    decreases ps.len(),
{
    if ps.len() > 0 {
        let init = ps.drop_last();
        let q = ps.last();
        assert forall|j: int| 0 <= j < init.len() implies {
            &&& on_board(#[trigger] init[j].0 as int, init[j].1 as int)
            &&& cell(g, init[j].0 as int, init[j].1 as int) == a
        } by {
            assert(init[j] == ps[j]);
        }
        assert forall|i: int, j: int| 0 <= i < j < init.len() implies init[i] != init[j] by {
            assert(init[i] == ps[i] && init[j] == ps[j]);
        }
        lemma_paint_counts(g, init, c, a);
        assert(on_board(q.0 as int, q.1 as int));
        if init.contains(q) {
            let j = choose|j: int| 0 <= j < init.len() && init[j] == q;
            assert(ps[j] == ps[ps.len() - 1]);
        }
        lemma_paint_unchanged(g, init, c, q);
        let h = paint(g, init, c);
        lemma_count_update(h, q.0 as int, q.1 as int, c, c, 64);
        lemma_count_update(h, q.0 as int, q.1 as int, c, a, 64);
        lemma_square_inverse(0, q.0 as int, q.1 as int);
    }
}

/// When `c` (Black or White) makes a legal move on a square of the playing
/// area that turns `n` stones, its stone count grows by `n + 1` and the
/// opponent's count falls by `n`.
pub proof fn law_move_counts(g: Seq<Color>, c: Color, x: int, y: int)
    requires
        g.len() == 100,
        c == Color::Black || c == Color::White,
        on_board(x, y),
        is_legal(g, c, x, y),
    ensures
        stones(play(g, c, x, y), c) == stones(g, c) + 1 + flips(g, c, x, y).len(),
        stones(play(g, c, x, y), c.opposite()) + flips(g, c, x, y).len() == stones(
            g,
            c.opposite(),
        ),
{
    let fl = flips(g, c, x, y);
    lemma_flips_shape(g, c, x, y, 8);
    let g1 = g.update(idx(x, y), c);
    lemma_count_update(g, x, y, c, c, 64);
    lemma_count_update(g, x, y, c, c.opposite(), 64);
    assert forall|j: int| 0 <= j < fl.len() implies {
        &&& on_board(#[trigger] fl[j].0 as int, fl[j].1 as int)
        &&& cell(g1, fl[j].0 as int, fl[j].1 as int) == c.opposite()
    } by {
        let e = fl[j];
        assert(cell(g, e.0 as int, e.1 as int) == c.opposite());
        assert(idx(e.0 as int, e.1 as int) != idx(x, y));
    }
    lemma_paint_counts(g1, fl, c, c.opposite());
}

/// A square is among the legal moves exactly when it lies in the playing
/// area and the move there is legal.
pub proof fn law_legal_moves_members(g: Seq<Color>, c: Color, p: Pos)
    ensures
        legal_moves(g, c).contains(p) <==> on_board(p.0 as int, p.1 as int) && is_legal(
            g,
            c,
            p.0 as int,
            p.1 as int,
        ),
{
    lemma_moves_members(g, c, p, 64);
}

proof fn lemma_moves_members(g: Seq<Color>, c: Color, q: Pos, k: nat)
    requires
        k <= 64,
    ensures
        moves_upto(g, c, k).contains(q) <==> on_board(q.0 as int, q.1 as int) && is_legal(
            g,
            c,
            q.0 as int,
            q.1 as int,
        ) && (q.0 - 1) * 8 + (q.1 - 1) < k,
    decreases k,
{
    let x = q.0 as int;
    let y = q.1 as int;
    if k > 0 {
        lemma_moves_members(g, c, q, (k - 1) as nat);
        let p = square(k - 1);
        let prev = moves_upto(g, c, (k - 1) as nat);
        let tail = if is_legal(g, c, p.0 as int, p.1 as int) {
            seq![p]
        } else {
            seq![]
        };
        let s = prev + tail;
        lemma_div8(k - 1);
        if on_board(x, y) {
            lemma_square_inverse(k - 1, x, y);
        }
        if s.contains(q) {
            let j = choose|j: int| 0 <= j < s.len() && s[j] == q;
            if j < prev.len() {
                assert(prev[j] == s[j]);
            } else {
                assert(s[j] == p);
            }
        }
        if on_board(x, y) && is_legal(g, c, x, y) && (x - 1) * 8 + (y - 1) < k {
            if (x - 1) * 8 + (y - 1) == k - 1 {
                assert(s[prev.len() as int] == p);
            } else {
                let j = choose|j: int| 0 <= j < prev.len() && prev[j] == q;
                assert(s[j] == prev[j]);
            }
        }
    }
}

/// A grid as a board keeps it: 100 squares, sentinels on the frame, and
/// only empty squares and stones inside.
pub open spec fn framed(g: Seq<Color>) -> bool {
    &&& g.len() == 100
    &&& forall|x: int, y: int|
        0 <= x <= 9 && 0 <= y <= 9 ==> if on_board(x, y) {
            #[trigger] cell(g, x, y) == Color::Empty || cell(g, x, y) == Color::Black || cell(g, x, y)
                == Color::White
        } else {
            cell(g, x, y) == Color::Sentinel
        }
}

proof fn lemma_line_needs_stone_colour(g: Seq<Color>, c: Color, x: int, y: int, dx: int, dy: int, fuel: nat)
    ensures
        line_flips(g, c, x, y, dx, dy, fuel) is Some ==> c == Color::Black || c == Color::White,
    decreases fuel,
{
    if fuel > 0 && on_board(x, y) && cell(g, x, y) == c.opposite() {
        lemma_line_needs_stone_colour(g, c, x + dx, y + dy, dx, dy, (fuel - 1) as nat);
    }
}

proof fn lemma_flips_need_stone_colour(g: Seq<Color>, c: Color, x: int, y: int, n: nat)
    ensures
        flips_upto(g, c, x, y, n).len() > 0 ==> c == Color::Black || c == Color::White,
    decreases n,
{
    if n > 0 {
        lemma_flips_need_stone_colour(g, c, x, y, (n - 1) as nat);
        let (dx, dy) = dir_of(n - 1);
        lemma_line_needs_stone_colour(g, c, x + dx, y + dy, dx, dy, 9);
    }
}

proof fn lemma_framed_update(g: Seq<Color>, px: int, py: int, v: Color)
    requires
        framed(g),
        on_board(px, py),
        v == Color::Black || v == Color::White,
    ensures
        framed(g.update(idx(px, py), v)),
{
    let h = g.update(idx(px, py), v);
    assert forall|x: int, y: int| 0 <= x <= 9 && 0 <= y <= 9 implies if on_board(x, y) {
        #[trigger] cell(h, x, y) == Color::Empty || cell(h, x, y) == Color::Black || cell(h, x, y)
            == Color::White
    } else {
        cell(h, x, y) == Color::Sentinel
    } by {
        if x != px || y != py {
            assert(idx(x, y) != idx(px, py));
            assert(cell(h, x, y) == cell(g, x, y));
        }
    }
}

proof fn lemma_framed_paint(g: Seq<Color>, ps: Seq<Pos>, v: Color)
    requires
        framed(g),
        forall|j: int| 0 <= j < ps.len() ==> on_board(#[trigger] ps[j].0 as int, ps[j].1 as int),
        v == Color::Black || v == Color::White,
    ensures
        framed(paint(g, ps, v)),
    decreases ps.len(),
{
    if ps.len() > 0 {
        let rest = ps.drop_last();
        assert forall|j: int| 0 <= j < rest.len() implies on_board(#[trigger] rest[j].0 as int, rest[j].1 as int) by {
            assert(rest[j] == ps[j]);
        }
        lemma_framed_paint(g, rest, v);
        assert(on_board(ps[ps.len() - 1].0 as int, ps[ps.len() - 1].1 as int));
        lemma_framed_update(paint(g, rest, v), ps.last().0 as int, ps.last().1 as int, v);
    }
}

/// A move keeps the board a board: on a framed grid, a legal move is on a
/// square of the playing area and made by Black or White, and the grid it
/// leaves keeps its frame of sentinels and holds only empty squares and
/// stones inside. So a square off the playing area, or a colour other than
/// Black and White, is never a legal move, and `apply_move` refuses it and
/// leaves the board as it was.
pub proof fn law_apply_keeps_frame(g: Seq<Color>, c: Color, x: int, y: int)
    requires
        framed(g),
        0 <= x,
        0 <= y,
    ensures
        is_legal(g, c, x, y) ==> on_board(x, y) && (c == Color::Black || c == Color::White) && framed(
            play(g, c, x, y),
        ),
{
    if is_legal(g, c, x, y) {
        crate::game::board::lemma_flips_on_board(g, c, x, y, 8);
        lemma_flips_need_stone_colour(g, c, x, y, 8);
        assert(0 <= x <= 9 && 0 <= y <= 9);
        assert(cell(g, x, y) == Color::Empty);
        assert(on_board(x, y));
        lemma_framed_update(g, x, y, c);
        let fl = flips(g, c, x, y);
        assert forall|j: int| 0 <= j < fl.len() implies on_board(#[trigger] fl[j].0 as int, fl[j].1 as int) by {
            assert(on_board(flips_upto(g, c, x, y, 8)[j].0 as int, flips_upto(g, c, x, y, 8)[j].1 as int));
        }
        lemma_framed_paint(g.update(idx(x, y), c), fl, c);
    }
}

/// The starting position is framed.
pub proof fn law_initial_framed()
    ensures
        framed(crate::game::board::initial_grid()),
{
    let g = crate::game::board::initial_grid();
    assert forall|x: int, y: int| 0 <= x <= 9 && 0 <= y <= 9 implies if on_board(x, y) {
        #[trigger] cell(g, x, y) == Color::Empty || cell(g, x, y) == Color::Black || cell(g, x, y)
            == Color::White
    } else {
        cell(g, x, y) == Color::Sentinel
    } by {
        let i = idx(x, y);
        assert(i / 10 == x && i % 10 == y);
    }
}

/// The k-th square from (x, y) in direction `i`.
pub open spec fn ray_square(x: int, y: int, i: int, k: int) -> (int, int) {
    (x + scale(k, dir_of(i).0), y + scale(k, dir_of(i).1))
}

/// From (x, y) in direction `i`, squares 1 to k of the ray lie on the board
/// and hold the opponent's stones, and square k + 1 lies on the board and
/// holds a stone of `c`: the k stones are bracketed.
pub open spec fn bracketed_run(g: Seq<Color>, c: Color, x: int, y: int, i: int, k: int) -> bool {
    &&& 1 <= k
    &&& forall|j: int|
        1 <= j <= k ==> on_board(#[trigger] ray_square(x, y, i, j).0, ray_square(x, y, i, j).1)
            && cell(g, ray_square(x, y, i, j).0, ray_square(x, y, i, j).1) == c.opposite()
    &&& on_board(ray_square(x, y, i, k + 1).0, ray_square(x, y, i, k + 1).1)
    &&& cell(g, ray_square(x, y, i, k + 1).0, ray_square(x, y, i, k + 1).1) == c
}

/// Square j of the walk from (x0, y0) in direction (dx, dy) is on the board
/// and holds the opponent's stone.
spec fn opp_at(g: Seq<Color>, c: Color, x0: int, y0: int, dx: int, dy: int, j: int) -> bool {
    on_board(x0 + scale(j, dx), y0 + scale(j, dy)) && cell(g, x0 + scale(j, dx), y0 + scale(j, dy))
        == c.opposite()
}

proof fn lemma_line_run(g: Seq<Color>, c: Color, x0: int, y0: int, dx: int, dy: int, fuel: nat, k: nat)
    requires
        -1 <= dx <= 1,
        -1 <= dy <= 1,
        c != c.opposite(),
        fuel >= k + 1,
        forall|j: int| 0 <= j < k ==> #[trigger] opp_at(g, c, x0, y0, dx, dy, j),
        on_board(x0 + scale(k as int, dx), y0 + scale(k as int, dy)),
        cell(g, x0 + scale(k as int, dx), y0 + scale(k as int, dy)) == c,
    ensures
        line_flips(g, c, x0, y0, dx, dy, fuel) == Some(
            Seq::new(k, |j: int| ((x0 + scale(j, dx)) as usize, (y0 + scale(j, dy)) as usize)),
        ),
    decreases k,
{
    if k == 0 {
        assert(Seq::new(0, |j: int| ((x0 + scale(j, dx)) as usize, (y0 + scale(j, dy)) as usize))
            =~= Seq::<Pos>::empty());
    } else {
        assert(opp_at(g, c, x0, y0, dx, dy, 0));
        assert forall|j: int| 0 <= j < k - 1 implies #[trigger] opp_at(g, c, x0 + dx, y0 + dy, dx, dy, j) by {
            assert(opp_at(g, c, x0, y0, dx, dy, j + 1));
            assert(x0 + dx + scale(j, dx) == x0 + scale(j + 1, dx));
            assert(y0 + dy + scale(j, dy) == y0 + scale(j + 1, dy));
        }
        assert(x0 + dx + scale(k - 1, dx) == x0 + scale(k as int, dx));
        assert(y0 + dy + scale(k - 1, dy) == y0 + scale(k as int, dy));
        lemma_line_run(g, c, x0 + dx, y0 + dy, dx, dy, (fuel - 1) as nat, (k - 1) as nat);
        let rest = Seq::new(
            (k - 1) as nat,
            |j: int| ((x0 + dx + scale(j, dx)) as usize, (y0 + dy + scale(j, dy)) as usize),
        );
        let whole = Seq::new(k, |j: int| ((x0 + scale(j, dx)) as usize, (y0 + scale(j, dy)) as usize));
        assert forall|j: int| 0 <= j < k implies (seq![(x0 as usize, y0 as usize)] + rest)[j] == whole[j] by {
            if j > 0 {
                assert(x0 + dx + scale(j - 1, dx) == x0 + scale(j, dx));
                assert(y0 + dy + scale(j - 1, dy) == y0 + scale(j, dy));
            }
        }
        assert(seq![(x0 as usize, y0 as usize)] + rest =~= whole);
    }
}

proof fn lemma_flips_upto_holds_dir(g: Seq<Color>, c: Color, x: int, y: int, n: nat, i: int)
    requires
        0 <= i < n,
    ensures
        forall|e: Pos| dir_flips(g, c, x, y, i).contains(e) ==> #[trigger] flips_upto(g, c, x, y, n).contains(e),
    decreases n,
{
    let a = flips_upto(g, c, x, y, (n - 1) as nat);
    let b = dir_flips(g, c, x, y, n - 1);
    assert(flips_upto(g, c, x, y, n) == a + b);
    if i < n - 1 {
        lemma_flips_upto_holds_dir(g, c, x, y, (n - 1) as nat, i);
    }
    assert forall|e: Pos| dir_flips(g, c, x, y, i).contains(e) implies #[trigger] flips_upto(g, c, x, y, n).contains(e) by {
        if i < n - 1 {
            assert(a.contains(e));
            let k = choose|k: int| 0 <= k < a.len() && a[k] == e;
            assert((a + b)[k] == e);
        } else {
            let k = choose|k: int| 0 <= k < b.len() && b[k] == e;
            assert((a + b)[a.len() + k] == e);
        }
    }
}

/// A move turns every bracketed stone: when, in some direction, the
/// squares 1 to k from the played square hold the opponent's stones and
/// square k + 1 holds a stone of the mover, the stones turned in that
/// direction are exactly those k squares, nearest first, and every one of
/// them is among the stones the move turns.
pub proof fn law_flips_take_whole_run(g: Seq<Color>, c: Color, x: int, y: int, i: int, k: int)
    requires
        0 <= i < 8,
        c == Color::Black || c == Color::White,
        bracketed_run(g, c, x, y, i, k),
    ensures
        dir_flips(g, c, x, y, i).len() == k,
        forall|j: int|
            1 <= j <= k ==> dir_flips(g, c, x, y, i)[j - 1] == (
                #[trigger] ray_square(x, y, i, j).0 as usize,
                ray_square(x, y, i, j).1 as usize,
            ),
        forall|j: int|
            1 <= j <= k ==> flips(g, c, x, y).contains(
                (#[trigger] ray_square(x, y, i, j).0 as usize, ray_square(x, y, i, j).1 as usize),
            ),
{
    let (dx, dy) = dir_of(i);
    let s1 = ray_square(x, y, i, 1);
    let sk = ray_square(x, y, i, k + 1);
    assert(on_board(s1.0, s1.1));
    assert(k <= 7) by {
        if dx != 0 {
            assert(sk.0 - s1.0 == scale(k, dx));
        } else {
            assert(dy != 0);
            assert(sk.1 - s1.1 == scale(k, dy));
        }
    }
    assert forall|j: int| 0 <= j < k implies #[trigger] opp_at(g, c, x + dx, y + dy, dx, dy, j) by {
        assert(on_board(ray_square(x, y, i, j + 1).0, ray_square(x, y, i, j + 1).1));
        assert(x + dx + scale(j, dx) == x + scale(j + 1, dx));
        assert(y + dy + scale(j, dy) == y + scale(j + 1, dy));
    }
    assert(x + dx + scale(k, dx) == sk.0);
    assert(y + dy + scale(k, dy) == sk.1);
    lemma_line_run(g, c, x + dx, y + dy, dx, dy, 9, k as nat);
    let run = Seq::new(k as nat, |j: int| ((x + dx + scale(j, dx)) as usize, (y + dy + scale(j, dy)) as usize));
    assert(dir_flips(g, c, x, y, i) == run);
    assert forall|j: int| 1 <= j <= k implies dir_flips(g, c, x, y, i)[j - 1] == (
        #[trigger] ray_square(x, y, i, j).0 as usize,
        ray_square(x, y, i, j).1 as usize,
    ) by {
        assert(x + dx + scale(j - 1, dx) == x + scale(j, dx));
        assert(y + dy + scale(j - 1, dy) == y + scale(j, dy));
    }
    lemma_flips_upto_holds_dir(g, c, x, y, 8, i);
    assert forall|j: int| 1 <= j <= k implies flips(g, c, x, y).contains(
        (#[trigger] ray_square(x, y, i, j).0 as usize, ray_square(x, y, i, j).1 as usize),
    ) by {
        let e = (ray_square(x, y, i, j).0 as usize, ray_square(x, y, i, j).1 as usize);
        assert(run[j - 1] == e);
        assert(dir_flips(g, c, x, y, i).contains(e));
    }
}

} // verus!
