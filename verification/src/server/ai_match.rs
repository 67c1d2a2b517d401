//! Games against a computer player: who the opponent is, who plays which
//! colour, and the final standing sent to the person.
use vstd::prelude::*;
use crate::game::color::Color;
use crate::protocol::proto::PlayerStat;
use crate::text::{push_signed_decimal, push_str, signed_decimal};
use super::match_runner::{MatchResult, Participant};

verus! {

/// The kind of computer opponent.
#[derive(Debug, Clone)]
pub enum AiType {
    Random,
    Egaroucid { level: i32, use_book: bool },
}

/// The name of an engine player: `Egaroucid_L<level>`, with `_NoBook`
/// when it plays without its opening book.
pub open spec fn engine_name(level: i32, use_book: bool) -> Seq<char> {
    "Egaroucid_L"@ + signed_decimal(level as int) + if use_book {
        Seq::<char>::empty()
    } else {
        "_NoBook"@
    }
}

/// The name of an engine player.
pub fn engine_player_name(level: i32, use_book: bool) -> (r: String)
    ensures
        r@ == engine_name(level, use_book),
{
    let mut s = String::from_str("Egaroucid_L");
    push_signed_decimal(&mut s, level as i64);
    if !use_book {
        push_str(&mut s, "_NoBook");
    }
    proof {
        if use_book {
            assert(s@ =~= engine_name(level, use_book));
        }
    }
    s
}

/// The computer opponent for `ai_type` and the mode name of the game.
pub fn ai_opponent(ai_type: &AiType) -> (r: (Participant, &'static str))
    ensures
        match *ai_type {
            AiType::Random => r.0 matches Participant::RandomAi { name } && name@ == "AI_Random"@
                && r.1@ == "vs-AI (Random)"@,
            AiType::Egaroucid { level, use_book } => r.0 matches Participant::EgaroucidAi {
                name,
                level: l,
                use_book: b,
            } && name@ == engine_name(level, use_book) && l == level && b == use_book && r.1@
                == "vs-AI (Egaroucid)"@,
        },
{
    match ai_type {
        AiType::Random => (Participant::RandomAi { name: String::from_str("AI_Random") }, "vs-AI (Random)"),
        AiType::Egaroucid { level, use_book } => (
            Participant::EgaroucidAi {
                name: engine_player_name(*level, *use_book),
                level: *level,
                use_book: *use_book,
            },
            "vs-AI (Egaroucid)",
        ),
    }
}

/// The standing sent to the person after a game against the computer: its
/// stone count as score, one win or one loss or neither.
pub fn ai_match_stat(player_name: String, human_is_white: bool, res: &MatchResult) -> (r: PlayerStat)
    ensures
        r.player_name == player_name,
        r.score == (if human_is_white {
            res.white_stones
        } else {
            res.black_stones
        }) as i32,
        r.wins == if res.winner_color == Some(
            if human_is_white {
                Color::White
            } else {
                Color::Black
            },
        ) {
            1u32
        } else {
            0u32
        },
        r.loses == if res.winner_color == Some(
            if human_is_white {
                Color::Black
            } else {
                Color::White
            },
        ) {
            1u32
        } else {
            0u32
        },
{
    let human_color = if human_is_white {
        Color::White
    } else {
        Color::Black
    };
    let ai_color = human_color.opposite();
    let human_stones = if human_is_white {
        res.white_stones
    } else {
        res.black_stones
    };
    let wins: u32 = match res.winner_color {
        Some(c) => if c == human_color {
            1
        } else {
            0
        },
        None => 0,
    };
    let loses: u32 = match res.winner_color {
        Some(c) => if c == ai_color {
            1
        } else {
            0
        },
        None => 0,
    };
    PlayerStat { player_name, score: human_stones as i32, wins, loses }
}

} // verus!
