//! The 8x8 board with a frame of sentinels, and the rules of play.
use vstd::prelude::*;
use super::color::Color;
use super::move_kind::Move;

verus! {

/// A square as (column, row); the playing area is 1..=8 in both.
pub type Pos = (usize, usize);

/// Index of square (x, y) in the 10x10 grid.
pub open spec fn idx(x: int, y: int) -> int {
    x * 10 + y
}

/// Content of square (x, y) of grid `g`.
pub open spec fn cell(g: Seq<Color>, x: int, y: int) -> Color {
    g[idx(x, y)]
}

/// Whether (x, y) lies in the playing area.
pub open spec fn on_board(x: int, y: int) -> bool {
    1 <= x <= 8 && 1 <= y <= 8
}

/// Walking from (x, y) in direction (dx, dy) for at most `fuel` squares:
/// `Some(run)` when a run of the opponent's stones (possibly empty) inside
/// the playing area ends at a stone of `c`; `None` when the walk leaves
/// the area or meets anything else first.
pub open spec fn line_flips(
    g: Seq<Color>,
    c: Color,
    x: int,
    y: int,
    dx: int,
    dy: int,
    fuel: nat,
) -> Option<Seq<Pos>>
    decreases fuel,
{
    if fuel == 0 || !on_board(x, y) {
        None
    } else if cell(g, x, y) == c.opposite() {
        match line_flips(g, c, x + dx, y + dy, dx, dy, (fuel - 1) as nat) {
            Some(rest) => Some(seq![(x as usize, y as usize)] + rest),
            None => None,
        }
    } else if cell(g, x, y) == c {
        Some(seq![])
    } else {
        None
    }
}

/// The eight directions, in the order in which they are searched.
pub open spec fn dir_of(i: int) -> (int, int) {
    if i == 0 {
        (-1, -1)
    } else if i == 1 {
        (0, -1)
    } else if i == 2 {
        (1, -1)
    } else if i == 3 {
        (-1, 0)
    } else if i == 4 {
        (1, 0)
    } else if i == 5 {
        (-1, 1)
    } else if i == 6 {
        (0, 1)
    } else {
        (1, 1)
    }
}

/// The stones that a stone of `c` at (x, y) would turn in direction `i`.
/// A board has at most eight squares in a line, so nine steps always
/// leave the playing area.
pub open spec fn dir_flips(g: Seq<Color>, c: Color, x: int, y: int, i: int) -> Seq<Pos> {
    let (dx, dy) = dir_of(i);
    match line_flips(g, c, x + dx, y + dy, dx, dy, 9) {
        Some(run) => run,
        None => seq![],
    }
}

/// The stones turned in the first `n` directions, direction by direction.
pub open spec fn flips_upto(g: Seq<Color>, c: Color, x: int, y: int, n: nat) -> Seq<Pos>
    decreases n,
{
    if n == 0 {
        seq![]
    } else {
        flips_upto(g, c, x, y, (n - 1) as nat) + dir_flips(g, c, x, y, n - 1)
    }
}

/// All stones that a stone of `c` at (x, y) would turn.
pub open spec fn flips(g: Seq<Color>, c: Color, x: int, y: int) -> Seq<Pos> {
    flips_upto(g, c, x, y, 8)
}

/// A legal move: the square is empty and turns at least one stone.
pub open spec fn is_legal(g: Seq<Color>, c: Color, x: int, y: int) -> bool {
    cell(g, x, y) == Color::Empty && flips(g, c, x, y).len() > 0
}

/// The k-th square of the playing area, column by column.
pub open spec fn square(k: int) -> Pos {
    ((k / 8 + 1) as usize, (k % 8 + 1) as usize)
}

/// The legal moves among the first k squares, in order.
pub open spec fn moves_upto(g: Seq<Color>, c: Color, k: nat) -> Seq<Pos>
    decreases k,
{
    if k == 0 {
        seq![]
    } else {
        let p = square(k - 1);
        moves_upto(g, c, (k - 1) as nat) + if is_legal(g, c, p.0 as int, p.1 as int) {
            seq![p]
        } else {
            seq![]
        }
    }
}

/// The legal moves of `c`, column by column and row by row within a column.
pub open spec fn legal_moves(g: Seq<Color>, c: Color) -> Seq<Pos> {
    moves_upto(g, c, 64)
}

/// How many of the first k squares hold `c`.
pub open spec fn count_upto(g: Seq<Color>, c: Color, k: nat) -> nat
    decreases k,
{
    if k == 0 {
        0
    } else {
        let p = square(k - 1);
        count_upto(g, c, (k - 1) as nat) + if cell(g, p.0 as int, p.1 as int) == c {
            1nat
        } else {
            0nat
        }
    }
}

/// How many squares of the playing area hold `c`.
pub open spec fn stones(g: Seq<Color>, c: Color) -> nat {
    count_upto(g, c, 64)
}

/// The starting position: sentinels on the frame, White on D4 and E5,
/// Black on E4 and D5, the rest empty.
pub open spec fn initial_grid() -> Seq<Color> {
    Seq::new(
        100,
        |i: int|
            {
                let x = i / 10;
                let y = i % 10;
                if x == 0 || x == 9 || y == 0 || y == 9 {
                    Color::Sentinel
                } else if (x == 4 && y == 4) || (x == 5 && y == 5) {
                    Color::White
                } else if (x == 4 && y == 5) || (x == 5 && y == 4) {
                    Color::Black
                } else {
                    Color::Empty
                }
            },
    )
}

/// `g` with every square of `ps` set to `c`, in order.
pub open spec fn paint(g: Seq<Color>, ps: Seq<Pos>, c: Color) -> Seq<Color>
    decreases ps.len(),
{
    if ps.len() == 0 {
        g
    } else {
        paint(g, ps.drop_last(), c).update(idx(ps.last().0 as int, ps.last().1 as int), c)
    }
}

/// The grid after `c` plays at (x, y): the stone is placed, then every
/// stone it turns takes its colour.
pub open spec fn play(g: Seq<Color>, c: Color, x: int, y: int) -> Seq<Color> {
    paint(g.update(idx(x, y), c), flips(g, c, x, y), c)
}

/// The engine's number for a square: 0 Black, 1 White, -1 anything else.
pub open spec fn engine_code(c: Color) -> i32 {
    match c {
        Color::Black => 0,
        Color::White => 1,
        _ => -1i32,
    }
}

/// The board: a 10x10 grid whose outer ring is a frame around the 8x8
/// playing area.
#[derive(Debug, Clone, PartialEq, Eq)]
pub struct Board {
    grid: [Color; 100],
}

impl View for Board {
    type V = Seq<Color>;

    closed spec fn view(&self) -> Seq<Color> {
        self.grid@
    }
}

impl Default for Board {
    /// The starting position.
    fn default() -> (b: Board)
        ensures
            b@ == initial_grid(),
    {
        Board::new()
    }
}

proof fn lemma_line_on_board(g: Seq<Color>, c: Color, x: int, y: int, dx: int, dy: int, fuel: nat)
    ensures
        line_flips(g, c, x, y, dx, dy, fuel) matches Some(run) ==> (forall|j: int|
            0 <= j < run.len() ==> on_board(#[trigger] run[j].0 as int, run[j].1 as int)),
        line_flips(g, c, x, y, dx, dy, fuel) matches Some(run) ==> (run.len() > 0 ==> on_board(
            x,
            y,
        )),
    decreases fuel,
{
    if fuel > 0 && on_board(x, y) && cell(g, x, y) == c.opposite() {
        lemma_line_on_board(g, c, x + dx, y + dy, dx, dy, (fuel - 1) as nat);
        match line_flips(g, c, x + dx, y + dy, dx, dy, (fuel - 1) as nat) {
            Some(rest) => {
                let run = seq![(x as usize, y as usize)] + rest;
                assert forall|j: int| 0 <= j < run.len() implies on_board(
                    #[trigger] run[j].0 as int,
                    run[j].1 as int,
                ) by {
                    if j > 0 {
                        assert(run[j] == rest[j - 1]);
                    }
                }
            },
            None => {},
        }
    }
}

/// Every stone that would turn lies in the playing area, and when any stone
/// turns, the square played lies within the frame.
pub proof fn lemma_flips_on_board(g: Seq<Color>, c: Color, x: int, y: int, n: nat)
    requires
        n <= 8,
    ensures
        forall|j: int|
            0 <= j < flips_upto(g, c, x, y, n).len() ==> on_board(
                #[trigger] flips_upto(g, c, x, y, n)[j].0 as int,
                flips_upto(g, c, x, y, n)[j].1 as int,
            ),
        flips_upto(g, c, x, y, n).len() > 0 ==> 0 <= x <= 9 && 0 <= y <= 9 || (x < 0 || y < 0),
    decreases n,
{
    if n > 0 {
        lemma_flips_on_board(g, c, x, y, (n - 1) as nat);
        let (dx, dy) = dir_of(n - 1);
        lemma_line_on_board(g, c, x + dx, y + dy, dx, dy, 9);
        let a = flips_upto(g, c, x, y, (n - 1) as nat);
        let b = dir_flips(g, c, x, y, n - 1);
        let s = a + b;
        assert forall|j: int| 0 <= j < s.len() implies on_board(
            #[trigger] s[j].0 as int,
            s[j].1 as int,
        ) by {
            if j >= a.len() {
                assert(s[j] == b[j - a.len()]);
            } else {
                assert(s[j] == a[j]);
            }
        }
    }
}

impl Board {
    /// The grid always has 100 squares.
    pub proof fn lemma_len(&self)
        ensures
            self@.len() == 100,
    {
    }

    /// The starting position.
    pub fn new() -> (b: Board)
        ensures
            b@ == initial_grid(),
    {
        let mut grid: [Color; 100] = [Color::Empty; 100];
        let mut i: usize = 0;
        while i < 100
            invariant
                i <= 100,
                grid@.len() == 100,
                forall|k: int| 0 <= k < i ==> grid@[k] == initial_grid()[k],
            decreases 100 - i,
        {
            let x = i / 10;
            let y = i % 10;
            let c = if x == 0 || x == 9 || y == 0 || y == 9 {
                Color::Sentinel
            } else if (x == 4 && y == 4) || (x == 5 && y == 5) {
                Color::White
            } else if (x == 4 && y == 5) || (x == 5 && y == 4) {
                Color::Black
            } else {
                Color::Empty
            };
            grid[i] = c;
            i += 1;
        }
        assert(grid@ =~= initial_grid());
        Board { grid }
    }

    /// The content of square p.
    pub fn get(&self, p: Pos) -> (c: Color)
        requires
            p.0 < 10,
            p.1 < 10,
        ensures
            c == cell(self@, p.0 as int, p.1 as int),
    {
        proof {
            self.lemma_len();
        }
        let (x, y) = p;
        self.grid[x * 10 + y]
    }

    /// Puts `color` on square p.
    pub fn set(&mut self, p: Pos, color: Color)
        requires
            p.0 < 10,
            p.1 < 10,
        ensures
            final(self)@ == old(self)@.update(idx(p.0 as int, p.1 as int), color),
    {
        proof {
            self.lemma_len();
        }
        let (x, y) = p;
        self.grid[x * 10 + y] = color;
    }

    fn flippable_in_dir(&self, color: Color, p: Pos, d: (isize, isize)) -> (r: Vec<Pos>)
        requires
            -1 <= d.0 <= 1,
            -1 <= d.1 <= 1,
        ensures
            r@ == match line_flips(
                self@,
                color,
                p.0 + d.0,
                p.1 + d.1,
                d.0 as int,
                d.1 as int,
                9,
            ) {
                Some(run) => run,
                None => seq![],
            },
    {
        proof {
            self.lemma_len();
        }
        let (x, y) = p;
        let (dx, dy) = d;
        if x > 9 || y > 9 {
            return Vec::new();
        }
        let opp = color.opposite();
        let mut res: Vec<Pos> = Vec::new();
        let mut cur_x: isize = x as isize + dx;
        let mut cur_y: isize = y as isize + dy;
        let mut fuel: usize = 9;
        let ghost whole = line_flips(
            self@,
            color,
            x + dx,
            y + dy,
            dx as int,
            dy as int,
            9,
        );
        while fuel > 0 && cur_x >= 1 && cur_x <= 8 && cur_y >= 1 && cur_y <= 8
            invariant
                self.grid@.len() == 100,
                x == p.0,
                y == p.1,
                dx == d.0,
                dy == d.1,
                -1 <= dx <= 1,
                -1 <= dy <= 1,
                -1 <= cur_x <= 10,
                -1 <= cur_y <= 10,
                fuel <= 9,
                opp == color.opposite(),
                whole == line_flips(self@, color, x + dx, y + dy, dx as int, dy as int, 9),
                whole == match line_flips(
                    self@,
                    color,
                    cur_x as int,
                    cur_y as int,
                    dx as int,
                    dy as int,
                    fuel as nat,
                ) {
                    Some(rest) => Some(res@ + rest),
                    None => None::<Seq<Pos>>,
                },
            decreases fuel,
        {
            let q: Pos = (cur_x as usize, cur_y as usize);
            let v = self.grid[q.0 * 10 + q.1];
            assert(v == cell(self@, cur_x as int, cur_y as int));
            if v == opp {
                let ghost before = res@;
                res.push(q);
                proof {
                    match line_flips(
                        self@,
                        color,
                        cur_x + dx,
                        cur_y + dy,
                        dx as int,
                        dy as int,
                        (fuel - 1) as nat,
                    ) {
                        Some(rest) => {
                            assert(before + (seq![q] + rest) =~= res@ + rest);
                        },
                        None => {},
                    }
                }
                cur_x = cur_x + dx;
                cur_y = cur_y + dy;
                fuel = fuel - 1;
            } else if v == color {
                assert(line_flips(self@, color, cur_x as int, cur_y as int, dx as int, dy as int, fuel as nat) == Some(Seq::<Pos>::empty()));
                assert(res@ + Seq::<Pos>::empty() =~= res@);
                return res;
            } else {
                assert(line_flips(self@, color, cur_x as int, cur_y as int, dx as int, dy as int, fuel as nat) == None::<Seq<Pos>>);
                return Vec::new();
            }
        }
        Vec::new()
    }

    fn direction(i: usize) -> (d: (isize, isize))
        requires
            i < 8,
        ensures
            d.0 as int == dir_of(i as int).0,
            d.1 as int == dir_of(i as int).1,
    {
        if i == 0 {
            (-1, -1)
        } else if i == 1 {
            (0, -1)
        } else if i == 2 {
            (1, -1)
        } else if i == 3 {
            (-1, 0)
        } else if i == 4 {
            (1, 0)
        } else if i == 5 {
            (-1, 1)
        } else if i == 6 {
            (0, 1)
        } else {
            (1, 1)
        }
    }

    /// The stones that a stone of `color` at p would turn, direction by
    /// direction in the order NW, N, NE, W, E, SW, S, SE (x grows east, y
    /// grows south), nearest first within a direction.
    pub fn flippable_indices(&self, color: Color, p: Pos) -> (r: Vec<Pos>)
        ensures
            r@ == flips(self@, color, p.0 as int, p.1 as int),
    {
        let mut out: Vec<Pos> = Vec::new();
        let mut i: usize = 0;
        while i < 8
            invariant
                i <= 8,
                out@ == flips_upto(self@, color, p.0 as int, p.1 as int, i as nat),
            decreases 8 - i,
        {
            let d = Board::direction(i);
            let mut line = self.flippable_in_dir(color, p, d);
            let ghost before = out@;
            out.append(&mut line);
            i += 1;
        }
        out
    }

    /// Whether `color` may play at p.
    pub fn is_valid_move(&self, color: Color, p: Pos) -> (r: bool)
        requires
            p.0 < 10,
            p.1 < 10,
        ensures
            r == is_legal(self@, color, p.0 as int, p.1 as int),
    {
        if self.get(p) != Color::Empty {
            return false;
        }
        let f = self.flippable_indices(color, p);
        f.len() != 0
    }

    /// The legal moves of `color`, column by column (x = 1..8) and row by
    /// row within a column.
    pub fn valid_moves(&self, color: Color) -> (r: Vec<Pos>)
        ensures
            r@ == legal_moves(self@, color),
    {
        let mut moves: Vec<Pos> = Vec::new();
        let mut x: usize = 1;
        while x <= 8
            invariant
                1 <= x <= 9,
                moves@ == moves_upto(self@, color, ((x - 1) * 8) as nat),
            decreases 9 - x,
        {
            let mut y: usize = 1;
            while y <= 8
                invariant
                    1 <= x <= 8,
                    1 <= y <= 9,
                    moves@ == moves_upto(self@, color, ((x - 1) * 8 + (y - 1)) as nat),
                decreases 9 - y,
            {
                proof {
                    lemma_square(x as int, y as int);
                }
                if self.is_valid_move(color, (x, y)) {
                    moves.push((x, y));
                }
                y += 1;
            }
            x += 1;
        }
        moves
    }

    /// Applies a move of `color`. A pass or a resignation changes nothing
    /// and is accepted. A square is accepted when it is empty and turns at
    /// least one stone: the stone is placed and the turned stones take its
    /// colour. Otherwise the board stays as it was and `false` comes back.
    pub fn apply_move(&mut self, m: Move, color: Color) -> (r: bool)
        ensures
            match m {
                Move::Coord { x, y } => {
                    &&& r == is_legal(old(self)@, color, x as int, y as int)
                    &&& r ==> final(self)@ == play(old(self)@, color, x as int, y as int)
                    &&& !r ==> final(self)@ == old(self)@
                },
                _ => r && final(self)@ == old(self)@,
            },
    {
        match m {
            Move::Pass | Move::GiveUp => true,
            Move::Coord { x, y } => {
                let p: Pos = (x as usize, y as usize);
                let fl = self.flippable_indices(color, p);
                proof {
                    lemma_flips_on_board(self@, color, x as int, y as int, 8);
                    self.lemma_len();
                }
                if fl.len() == 0 || self.get(p) != Color::Empty {
                    return false;
                }
                let ghost g0 = self@;
                self.set(p, color);
                let ghost base = self@;
                let mut i: usize = 0;
                while i < fl.len()
                    invariant
                        i <= fl.len(),
                        fl@ == flips(g0, color, x as int, y as int),
                        forall|j: int|
                            0 <= j < fl@.len() ==> on_board(
                                #[trigger] fl@[j].0 as int,
                                fl@[j].1 as int,
                            ),
                        self@ == paint(base, fl@.take(i as int), color),
                    decreases fl.len() - i,
                {
                    let q = fl[i];
                    assert(on_board(fl@[i as int].0 as int, fl@[i as int].1 as int));
                    self.set(q, color);
                    i += 1;
                    assert(fl@.take(i as int).drop_last() =~= fl@.take(i - 1));
                }
                assert(fl@.take(fl.len() as int) =~= fl@);
                true
            },
        }
    }

    /// The numbers of black and of white stones in the playing area.
    pub fn count_stones(&self) -> (r: (u32, u32))
        ensures
            r.0 == stones(self@, Color::Black),
            r.1 == stones(self@, Color::White),
    {
        let mut black: u32 = 0;
        let mut white: u32 = 0;
        let mut x: usize = 1;
        while x <= 8
            invariant
                1 <= x <= 9,
                black == count_upto(self@, Color::Black, ((x - 1) * 8) as nat),
                white == count_upto(self@, Color::White, ((x - 1) * 8) as nat),
                black <= (x - 1) * 8,
                white <= (x - 1) * 8,
            decreases 9 - x,
        {
            let mut y: usize = 1;
            while y <= 8
                invariant
                    1 <= x <= 8,
                    1 <= y <= 9,
                    black == count_upto(self@, Color::Black, ((x - 1) * 8 + (y - 1)) as nat),
                    white == count_upto(self@, Color::White, ((x - 1) * 8 + (y - 1)) as nat),
                    black <= (x - 1) * 8 + (y - 1),
                    white <= (x - 1) * 8 + (y - 1),
                decreases 9 - y,
            {
                proof {
                    lemma_square(x as int, y as int);
                }
                match self.get((x, y)) {
                    Color::Black => black += 1,
                    Color::White => white += 1,
                    _ => {},
                }
                y += 1;
            }
            x += 1;
        }
        (black, white)
    }

    /// Whether neither player has a legal move.
    pub fn is_game_over(&self) -> (r: bool)
        ensures
            r == (legal_moves(self@, Color::Black).len() == 0 && legal_moves(
                self@,
                Color::White,
            ).len() == 0),
    {
        let black_moves = self.valid_moves(Color::Black);
        let white_moves = self.valid_moves(Color::White);
        black_moves.len() == 0 && white_moves.len() == 0
    }

    /// The board as the search engine reads it: 64 squares row by row
    /// (index (y-1)*8 + (x-1)), 0 for Black, 1 for White, -1 otherwise.
    pub fn to_egaroucid_array(&self) -> (r: [i32; 64])
        ensures
            forall|k: int|
                0 <= k < 64 ==> #[trigger] r@[k] == engine_code(
                    cell(self@, k % 8 + 1, k / 8 + 1),
                ),
    {
        let mut arr: [i32; 64] = [-1i32; 64];
        let mut y: usize = 1;
        while y <= 8
            invariant
                1 <= y <= 9,
                arr@.len() == 64,
                forall|k: int|
                    0 <= k < (y - 1) * 8 ==> #[trigger] arr@[k] == engine_code(
                        cell(self@, k % 8 + 1, k / 8 + 1),
                    ),
            decreases 9 - y,
        {
            let mut x: usize = 1;
            while x <= 8
                invariant
                    1 <= y <= 8,
                    1 <= x <= 9,
                    arr@.len() == 64,
                    forall|k: int|
                        0 <= k < (y - 1) * 8 + (x - 1) ==> #[trigger] arr@[k] == engine_code(
                            cell(self@, k % 8 + 1, k / 8 + 1),
                        ),
                decreases 9 - x,
            {
                proof {
                    lemma_square(y as int, x as int);
                }
                let v: i32 = match self.get((x, y)) {
                    Color::Black => 0,
                    Color::White => 1,
                    _ => -1,
                };
                arr[(y - 1) * 8 + (x - 1)] = v;
                x += 1;
            }
            y += 1;
        }
        arr
    }
}

/// Square k of the playing area for k = (x-1)*8 + (y-1).
proof fn lemma_square(x: int, y: int)
    requires
        1 <= x <= 8,
        1 <= y <= 8,
    ensures
        ((x - 1) * 8 + (y - 1)) / 8 == x - 1,
        ((x - 1) * 8 + (y - 1)) % 8 == y - 1,
        square((x - 1) * 8 + (y - 1)) == (x as usize, y as usize),
{
    assert(((x - 1) * 8 + (y - 1)) / 8 == x - 1) by (nonlinear_arith)
        requires
            1 <= x <= 8,
            1 <= y <= 8,
    ;
    assert(((x - 1) * 8 + (y - 1)) % 8 == y - 1) by (nonlinear_arith)
        requires
            1 <= x <= 8,
            1 <= y <= 8,
    ;
}

} // verus!
