//! Stone colours and a player's colour preference.
use vstd::prelude::*;
use crate::text::{lowercase, str_eq, to_lowercase};

verus! {

/// The content of a square. `Sentinel` marks the frame around the
/// playing area.
#[derive(Debug, Clone, Copy, PartialEq, Eq, Hash, Structural)]
pub enum Color {
    Empty,
    Black,
    White,
    Sentinel,
}

impl Color {
    /// Black and White swap; the other colours stay as they are.
    pub open spec fn spec_opposite(self) -> Color {
        match self {
            Color::Black => Color::White,
            Color::White => Color::Black,
            other => other,
        }
    }

    /// The colour of the other player.
    #[verifier::when_used_as_spec(spec_opposite)]
    pub fn opposite(self) -> (r: Color)
        ensures
            r == self.spec_opposite(),
    {
        match self {
            Color::Black => Color::White,
            Color::White => Color::Black,
            other => other,
        }
    }

    /// The one-character picture of a square.
    pub open spec fn spec_to_char(self) -> char {
        match self {
            Color::Black => 'X',
            Color::White => 'O',
            Color::Empty => '.',
            Color::Sentinel => '#',
        }
    }

    /// The one-character picture of a square.
    pub fn to_char(self) -> (r: char)
        ensures
            r == self.spec_to_char(),
    {
        match self {
            Color::Black => 'X',
            Color::White => 'O',
            Color::Empty => '.',
            Color::Sentinel => '#',
        }
    }

    /// The upper-case name of the colour, as the wire protocol writes it.
    pub open spec fn name(self) -> Seq<char> {
        match self {
            Color::Empty => seq!['E', 'M', 'P', 'T', 'Y'],
            Color::Black => seq!['B', 'L', 'A', 'C', 'K'],
            Color::White => seq!['W', 'H', 'I', 'T', 'E'],
            Color::Sentinel => seq!['S', 'E', 'N', 'T', 'I', 'N', 'E', 'L'],
        }
    }

    /// The upper-case name of the colour (`EMPTY`, `BLACK`, `WHITE`,
    /// `SENTINEL`).
    pub fn to_string(&self) -> (r: String)
        ensures
            r@ == self.name(),
    {
        match self {
            Color::Empty => {
                let s = String::from_str("EMPTY");
                proof {
                    reveal_strlit("EMPTY");
                }
                s
            },
            Color::Black => {
                let s = String::from_str("BLACK");
                proof {
                    reveal_strlit("BLACK");
                }
                s
            },
            Color::White => {
                let s = String::from_str("WHITE");
                proof {
                    reveal_strlit("WHITE");
                }
                s
            },
            Color::Sentinel => {
                let s = String::from_str("SENTINEL");
                proof {
                    reveal_strlit("SENTINEL");
                }
                s
            },
        }
    }
}

/// The colour a player asks to play.
#[derive(Debug, Clone, Copy, PartialEq, Eq, Structural)]
pub enum PreferredColor {
    Black,
    White,
    Random,
}

/// The preference that a lower-cased request names: `black` or `b`,
/// `white` or `w`; anything else leaves the choice to chance.
pub open spec fn preference_of_lowered(l: Seq<char>) -> PreferredColor {
    if l == seq!['b', 'l', 'a', 'c', 'k'] || l == seq!['b'] {
        PreferredColor::Black
    } else if l == seq!['w', 'h', 'i', 't', 'e'] || l == seq!['w'] {
        PreferredColor::White
    } else {
        PreferredColor::Random
    }
}

/// Calls `rand::random::<bool>()`, the coin that settles a colour left to
/// chance. Chance decides; nothing is stated of the result.
#[verifier::external_body]
pub(crate) fn random_coin() -> bool {
    rand::random()
}

impl PreferredColor {
    /// Reads a colour request, ignoring case.
    pub fn from_str(s: &str) -> (r: PreferredColor)
        ensures
            r == preference_of_lowered(lowercase(s@)),
    {
        let l = to_lowercase(s);
        PreferredColor::from_lowered(l.as_str())
    }

    /// Reads a colour request that is already in lower case.
    pub fn from_lowered(l: &str) -> (r: PreferredColor)
        ensures
            r == preference_of_lowered(l@),
    {
        proof {
            reveal_strlit("black");
            reveal_strlit("b");
            reveal_strlit("white");
            reveal_strlit("w");
            assert("black"@ =~= seq!['b', 'l', 'a', 'c', 'k']);
            assert("b"@ =~= seq!['b']);
            assert("white"@ =~= seq!['w', 'h', 'i', 't', 'e']);
            assert("w"@ =~= seq!['w']);
        }
        if str_eq(l, "black") || str_eq(l, "b") {
            PreferredColor::Black
        } else if str_eq(l, "white") || str_eq(l, "w") {
            PreferredColor::White
        } else {
            PreferredColor::Random
        }
    }

    /// Whether the player with this preference takes White, given the
    /// coin that decides a `Random` preference.
    pub fn plays_white(self, coin: bool) -> (r: bool)
        ensures
            r == match self {
                PreferredColor::White => true,
                PreferredColor::Black => false,
                PreferredColor::Random => coin,
            },
    {
        match self {
            PreferredColor::White => true,
            PreferredColor::Black => false,
            PreferredColor::Random => coin,
        }
    }

    /// Whether the player with this preference takes White against an
    /// opponent without one: as asked, or by the toss of a coin for
    /// `Random`.
    pub fn decide_white(self) -> (r: bool)
        ensures
            self == PreferredColor::White ==> r,
            self == PreferredColor::Black ==> !r,
    {
        match self {
            PreferredColor::Random => random_coin(),
            _ => self.plays_white(false),
        }
    }
}

/// Black and White are each other's opposite, and taking the opposite
/// twice gives back the colour one started from.
pub proof fn law_opposite_involution(c: Color)
    ensures
        c.opposite().opposite() == c,
        c == Color::Black ==> c.opposite() == Color::White,
        c == Color::White ==> c.opposite() == Color::Black,
{
}

} // verus!
