//! The search engine player: what is asked of the engine and how its
//! answer becomes a move. The engine itself is reached by the program.
use vstd::prelude::*;
use crate::game::board::{cell, engine_code, legal_moves, Board, Pos};
use crate::game::board_laws::law_legal_moves_members;
use crate::game::color::Color;
use crate::game::move_kind::Move;

verus! {

/// Settings of an engine player.
pub struct EgaroucidAi {
    pub level: i32,
    pub use_book: bool,
    pub timeout_ms: i32,
}

/// What the engine is asked: the position, the side to move, and the
/// search settings.
pub struct EngineRequest {
    pub board: [i32; 64],
    pub player: i32,
    pub level: i32,
    pub time_limit_ms: i32,
    pub use_book: i32,
}

/// The engine's number for the side to move: 1 for White, 0 otherwise.
pub open spec fn player_code(c: Color) -> i32 {
    if c == Color::White {
        1
    } else {
        0
    }
}

/// `v` limited to `lo..=hi`.
pub open spec fn clamp(v: int, lo: int, hi: int) -> int {
    if v < lo {
        lo
    } else if v > hi {
        hi
    } else {
        v
    }
}

/// The square that the engine's answer names, when it is in `0..64`:
/// column `raw % 8 + 1`, row `raw / 8 + 1`.
pub open spec fn engine_square(raw: i32) -> Pos {
    ((raw % 8 + 1) as usize, (raw / 8 + 1) as usize)
}

/// The move played on the engine's answer: its square when that is a legal
/// move, otherwise the first legal move.
pub open spec fn engine_choice(moves: Seq<Pos>, raw: i32) -> Move {
    let p = if 0 <= raw < 64 && moves.contains(engine_square(raw)) {
        engine_square(raw)
    } else {
        moves[0]
    };
    Move::Coord { x: p.0 as u8, y: p.1 as u8 }
}

impl EgaroucidAi {
    /// An engine player with the given strength, opening book use and
    /// time limit.
    pub fn new(level: i32, use_book: bool, timeout_ms: i32) -> (r: EgaroucidAi)
        ensures
            r.level == level,
            r.use_book == use_book,
            r.timeout_ms == timeout_ms,
    {
        EgaroucidAi { level, use_book, timeout_ms }
    }

    /// The question for the engine, or `None` when `color` has no legal
    /// move (it then passes without asking).
    pub fn engine_request(&self, board: &Board, color: Color) -> (r: Option<EngineRequest>)
        ensures
            r is None <==> legal_moves(board@, color).len() == 0,
            r matches Some(q) ==> {
                &&& forall|k: int|
                    0 <= k < 64 ==> #[trigger] q.board@[k] == engine_code(
                        cell(board@, k % 8 + 1, k / 8 + 1),
                    )
                &&& q.player == player_code(color)
                &&& q.level == clamp(self.level as int, 0, 20)
                &&& q.time_limit_ms == self.timeout_ms
                &&& q.use_book == if self.use_book {
                    1i32
                } else {
                    0i32
                }
            },
    {
        let moves = board.valid_moves(color);
        if moves.len() == 0 {
            return None;
        }
        let arr = board.to_egaroucid_array();
        let player: i32 = if color == Color::White {
            1
        } else {
            0
        };
        let level: i32 = if self.level < 0 {
            0
        } else if self.level > 20 {
            20
        } else {
            self.level
        };
        Some(
            EngineRequest {
                board: arr,
                player,
                level,
                time_limit_ms: self.timeout_ms,
                use_book: if self.use_book {
                    1
                } else {
                    0
                },
            },
        )
    }

    /// The move to play once the engine answered `raw_move` (-1 when it
    /// gave no answer), for a side that has a legal move.
    pub fn move_from_engine(board: &Board, color: Color, raw_move: i32) -> (m: Move)
        requires
            legal_moves(board@, color).len() > 0,
        ensures
            m == engine_choice(legal_moves(board@, color), raw_move),
    {
        let moves = board.valid_moves(color);
        if raw_move >= 0 && raw_move < 64 {
            let x: usize = (raw_move % 8 + 1) as usize;
            let y: usize = (raw_move / 8 + 1) as usize;
            let mut found = false;
            let mut i: usize = 0;
            while i < moves.len()
                invariant
                    i <= moves.len(),
                    found == exists|j: int| 0 <= j < i && moves@[j] == (x, y),
                decreases moves.len() - i,
            {
                if moves[i].0 == x && moves[i].1 == y {
                    found = true;
                }
                i += 1;
            }
            if found {
                assert(moves@.contains(engine_square(raw_move)));
                return Move::Coord { x: x as u8, y: y as u8 };
            }
        }
        let (vx, vy) = moves[0];
        proof {
            law_legal_moves_members(board@, color, (vx, vy));
            assert(moves@.contains((vx, vy)));
        }
        Move::Coord { x: vx as u8, y: vy as u8 }
    }
}

} // verus!
