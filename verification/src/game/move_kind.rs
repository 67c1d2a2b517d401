//! A player's move and its text form (`D3`, `PASS`, `GIVEUP`).
use vstd::prelude::*;
use crate::text::{chars_of, plain_upper, push_char, str_eq, string_from_chars, trim, trim_chars, to_uppercase, uppercase};

verus! {

/// A move: a square (`x` is the column 1..=8 written `A`..`H`, `y` the row
/// 1..=8), a pass, or resignation.
#[derive(Debug, Clone, Copy, PartialEq, Eq, Hash, Structural)]
pub enum Move {
    Coord { x: u8, y: u8 },
    Pass,
    GiveUp,
}

/// The move that an upper-cased, trimmed text names, if any: `PASS`,
/// `GIVEUP`, or a column letter `A`..`H` followed by a row digit `1`..`8`.
pub open spec fn move_of_normalized(u: Seq<char>) -> Option<Move> {
    if u == seq!['P', 'A', 'S', 'S'] {
        Some(Move::Pass)
    } else if u == seq!['G', 'I', 'V', 'E', 'U', 'P'] {
        Some(Move::GiveUp)
    } else if u.len() == 2 && 'A' <= u[0] <= 'H' && '1' <= u[1] <= '8' {
        Some(Move::Coord { x: (u[0] as int - 64) as u8, y: (u[1] as int - 48) as u8 })
    } else {
        None
    }
}

/// The move that a text names, ignoring surrounding white space and case.
pub open spec fn move_of_text(s: Seq<char>) -> Option<Move> {
    move_of_normalized(uppercase(trim(s)))
}

/// Coordinates that the text form can write without overflow.
pub open spec fn printable(m: Move) -> bool {
    m matches Move::Coord { x, y } ==> x <= 190 && y <= 206
}

/// The text form of a move.
pub open spec fn move_text(m: Move) -> Seq<char> {
    match m {
        Move::Pass => seq!['P', 'A', 'S', 'S'],
        Move::GiveUp => seq!['G', 'I', 'V', 'E', 'U', 'P'],
        Move::Coord { x, y } => seq![(64 + x) as char, (48 + y) as char],
    }
}

impl Move {
    /// Reads a move, ignoring surrounding white space and case.
    pub fn from_str(s: &str) -> (r: Option<Move>)
        ensures
            r == move_of_text(s@),
            plain_upper(trim(s@)) ==> r == move_of_normalized(trim(s@)),
    {
        let t = trim_chars(s);
        let ts = string_from_chars(&t);
        let u = to_uppercase(ts.as_str());
        Move::from_normalized(u.as_str())
    }

    /// Reads a move from text that is already trimmed and upper-cased.
    pub fn from_normalized(u: &str) -> (r: Option<Move>)
        ensures
            r == move_of_normalized(u@),
    {
        proof {
            reveal_strlit("PASS");
            reveal_strlit("GIVEUP");
            assert("PASS"@ =~= seq!['P', 'A', 'S', 'S']);
            assert("GIVEUP"@ =~= seq!['G', 'I', 'V', 'E', 'U', 'P']);
        }
        if str_eq(u, "PASS") {
            return Some(Move::Pass);
        }
        if str_eq(u, "GIVEUP") {
            return Some(Move::GiveUp);
        }
        let v = chars_of(u);
        if v.len() == 2 {
            let col = v[0];
            let row = v[1];
            if 'A' <= col && col <= 'H' && '1' <= row && row <= '8' {
                let x: u8 = (col as u32 - 64) as u8;
                let y: u8 = (row as u32 - 48) as u8;
                return Some(Move::Coord { x, y });
            }
        }
        None
    }

    /// The text form: `PASS`, `GIVEUP`, or column letter and row digit.
    pub fn to_string(&self) -> (r: String)
        requires
            printable(*self),
        ensures
            r@ == move_text(*self),
    {
        match self {
            Move::Pass => {
                proof {
                    reveal_strlit("PASS");
                }
                String::from_str("PASS")
            },
            Move::GiveUp => {
                proof {
                    reveal_strlit("GIVEUP");
                }
                String::from_str("GIVEUP")
            },
            Move::Coord { x, y } => {
                let col: char = (65u8 + *x - 1) as char;
                let row: char = (49u8 + *y - 1) as char;
                let mut s = String::new();
                push_char(&mut s, col);
                push_char(&mut s, row);
                assert(s@ =~= move_text(*self));
                s
            },
        }
    }
}

/// Reading back the text form of a pass, a resignation or a square of the
/// board gives the same move.
pub proof fn law_move_text_roundtrip(m: Move)
    requires
        m matches Move::Coord { x, y } ==> 1 <= x <= 8 && 1 <= y <= 8,
    ensures
        move_of_normalized(move_text(m)) == Some(m),
{
    match m {
        Move::Coord { x, y } => {
            let t = move_text(m);
            assert(t != seq!['P', 'A', 'S', 'S']);
            assert(t != seq!['G', 'I', 'V', 'E', 'U', 'P']);
        },
        _ => {},
    }
}

} // verus!
