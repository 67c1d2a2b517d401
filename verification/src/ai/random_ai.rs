//! A player that picks one of its legal moves at random.
use vstd::prelude::*;
use crate::game::board::{legal_moves, Board, Pos};
use crate::game::board_laws::law_legal_moves_members;
use crate::game::color::Color;
use crate::game::move_kind::Move;
use rand::Rng;

verus! {

/// Draws an index in `0..len` with `rand::thread_rng().gen_range`.
/// Claimed: the result is below `len` (the range that was asked for);
/// which index comes back is left to chance and not stated.
#[verifier::external_body]
fn random_index(len: usize) -> (r: usize)
    requires
        len > 0,
    ensures
        r < len,
{
    rand::thread_rng().gen_range(0..len)
}

/// The move to the square at position `index` of the list of legal moves,
/// or a pass when there is none.
pub fn move_from_draw(board: &Board, color: Color, index: usize) -> (m: Move)
    ensures
        legal_moves(board@, color).len() == 0 ==> m == Move::Pass,
        legal_moves(board@, color).len() > 0 ==> {
            let p = legal_moves(board@, color)[index as int % legal_moves(board@, color).len() as int];
            m == (Move::Coord { x: p.0 as u8, y: p.1 as u8 })
        },
{
    let moves = board.valid_moves(color);
    if moves.len() == 0 {
        return Move::Pass;
    }
    let i = index % moves.len();
    pick(&moves, board, color, i)
}

fn pick(moves: &Vec<Pos>, board: &Board, color: Color, i: usize) -> (m: Move)
    requires
        moves@ == legal_moves(board@, color),
        i < moves.len(),
    ensures
        m == (Move::Coord { x: moves@[i as int].0 as u8, y: moves@[i as int].1 as u8 }),
        1 <= moves@[i as int].0 <= 8,
        1 <= moves@[i as int].1 <= 8,
{
    let (x, y) = moves[i];
    proof {
        law_legal_moves_members(board@, color, (x, y));
        assert(moves@.contains((x, y)));
    }
    Move::Coord { x: x as u8, y: y as u8 }
}

/// A random legal move for `color`, or a pass when it has none.
pub fn decide_random_move(board: &Board, color: Color) -> (m: Move)
    ensures
        legal_moves(board@, color).len() == 0 ==> m == Move::Pass,
        legal_moves(board@, color).len() > 0 ==> exists|i: int|
            0 <= i < legal_moves(board@, color).len() && m == (Move::Coord {
                x: #[trigger] legal_moves(board@, color)[i].0 as u8,
                y: legal_moves(board@, color)[i].1 as u8,
            }),
{
    let valid_moves = board.valid_moves(color);
    if valid_moves.len() == 0 {
        Move::Pass
    } else {
        let idx = random_index(valid_moves.len());
        pick(&valid_moves, board, color, idx)
    }
}

} // verus!
