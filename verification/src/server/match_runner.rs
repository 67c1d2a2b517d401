//! The decisions of a running match: whose turn it is, how the clock runs
//! down, and when and how the game ends. Waiting for moves and sending the
//! messages is left to the caller, which feeds each chosen move in.
use vstd::prelude::*;
use crate::game::board::{is_legal, legal_moves, play, stones, Board};
use crate::game::color::Color;
use crate::game::move_kind::{move_text, printable, Move};
use crate::protocol::proto::{ServerCommand, Wl};
use crate::text::{copy_strings, push_str, starts_with};
use super::history::FinishedMatchInfo;
use super::session::ActivePlayerSession;

verus! {

/// A player in a match: a connected client or a computer player.
pub enum Participant {
    Human(ActivePlayerSession),
    RandomAi { name: String },
    EgaroucidAi { name: String, level: i32, use_book: bool },
}

/// The name a participant plays under.
pub open spec fn participant_name(p: Participant) -> Seq<char> {
    match p {
        Participant::Human(sess) => sess.handle.player_name@,
        Participant::RandomAi { name } => name@,
        Participant::EgaroucidAi { name, .. } => name@,
    }
}

/// Computer players, and people playing from the web page (their names
/// start with `Player_Web`), play without a clock.
pub open spec fn unlimited_time(p: Participant) -> bool {
    match p {
        Participant::Human(sess) => 10 <= sess.handle.player_name@.len()
            && sess.handle.player_name@.take(10) == "Player_Web"@,
        _ => true,
    }
}

/// The time announced to a player without a clock: one day.
pub const UNLIMITED_MS: i32 = 86_400_000;

impl Participant {
    /// The name the participant plays under.
    pub fn name(&self) -> (r: &str)
        ensures
            r@ == participant_name(*self),
    {
        match self {
            Participant::Human(sess) => sess.handle.player_name.as_str(),
            Participant::RandomAi { name } => name.as_str(),
            Participant::EgaroucidAi { name, .. } => name.as_str(),
        }
    }

    /// Whether the participant plays without a clock.
    pub fn is_unlimited_time(&self) -> (r: bool)
        ensures
            r == unlimited_time(*self),
    {
        match self {
            Participant::Human(sess) => {
                let r = starts_with(sess.handle.player_name.as_str(), "Player_Web");
                proof {
                    reveal_strlit("Player_Web");
                    assert(sess.handle.player_name@.subrange(0, 10) =~= sess.handle.player_name@.take(
                        10,
                    ));
                }
                r
            },
            _ => true,
        }
    }
}

/// The outcome of a match.
#[derive(Debug, Clone)]
pub struct MatchResult {
    pub black_name: String,
    pub white_name: String,
    pub winner_color: Option<Color>,
    pub black_stones: u32,
    pub white_stones: u32,
    pub reason: String,
    pub moves: Vec<String>,
}

/// The state of a match between two moves.
pub struct MatchState {
    pub board: Board,
    pub turn: Color,
    pub consecutive_passes: u32,
    pub black_remaining_ms: i32,
    pub white_remaining_ms: i32,
    pub black_name: String,
    pub white_name: String,
    pub moves: Vec<String>,
}

/// What happens after a move.
pub enum TurnOutcome {
    /// The game goes on: the mover is told its remaining time and the
    /// opponent is told `announced`; `counted` says whether a stone was
    /// placed or a pass was played while moves were possible (the move
    /// counter of the match goes up).
    Continue { mover: Color, announced: Move, remaining_ms: i32, counted: bool },
    /// The game is over.
    Finished(MatchResult),
}

/// A match state the rules can work on: a player to move and clocks that
/// have not gone below zero.
pub open spec fn state_ok(s: MatchState) -> bool {
    &&& s.turn == Color::Black || s.turn == Color::White
    &&& s.black_remaining_ms >= 0
    &&& s.white_remaining_ms >= 0
    &&& s.consecutive_passes < 2
}

/// Whether the game has ended by itself: no legal move for either side,
/// or two passes in a row.
pub open spec fn game_ended(s: MatchState) -> bool {
    (legal_moves(s.board@, Color::Black).len() == 0 && legal_moves(s.board@, Color::White).len()
        == 0) || s.consecutive_passes >= 2
}

/// The clock of `c` in `s`.
pub open spec fn remaining_of(s: MatchState, c: Color) -> i32 {
    if c == Color::Black {
        s.black_remaining_ms
    } else {
        s.white_remaining_ms
    }
}

/// The clock after a move that took `elapsed` ms (at least 1 is charged);
/// it never goes below zero, and does not run without a clock.
pub open spec fn clock_after(current: i32, unlimited: bool, elapsed: i32) -> int {
    if unlimited {
        current as int
    } else {
        let cost = if elapsed < 1 {
            1
        } else {
            elapsed as int
        };
        if current - cost < 0 {
            0
        } else {
            current - cost
        }
    }
}

/// The winner by stone count: more stones wins, equal counts tie.
pub open spec fn winner_by_count(b: nat, w: nat) -> Option<Color> {
    if b > w {
        Some(Color::Black)
    } else if w > b {
        Some(Color::White)
    } else {
        None
    }
}

/// How a player sees the winner.
pub open spec fn result_for(side: Color, winner: Option<Color>) -> Wl {
    match winner {
        Some(c) => if c == side {
            Wl::Win
        } else {
            Wl::Lose
        },
        None => Wl::Tie,
    }
}

impl MatchState {
    /// A new game between `black_name` and `white_name`: the starting
    /// position, Black to move, each clock at `assigned_time_ms` but at
    /// least 100 ms.
    pub fn new(black_name: String, white_name: String, assigned_time_ms: i32) -> (r: MatchState)
        ensures
            state_ok(r),
            r.board@ == crate::game::board::initial_grid(),
            r.turn == Color::Black,
            r.consecutive_passes == 0,
            r.black_remaining_ms == if assigned_time_ms < 100 {
                100
            } else {
                assigned_time_ms
            },
            r.white_remaining_ms == r.black_remaining_ms,
            r.black_name == black_name,
            r.white_name == white_name,
            r.moves@.len() == 0,
    {
        let t = if assigned_time_ms < 100 {
            100
        } else {
            assigned_time_ms
        };
        MatchState {
            board: Board::new(),
            turn: Color::Black,
            consecutive_passes: 0,
            black_remaining_ms: t,
            white_remaining_ms: t,
            black_name,
            white_name,
            moves: Vec::new(),
        }
    }

    /// Whether the game has ended by itself.
    pub fn is_over(&self) -> (r: bool)
        ensures
            r == game_ended(*self),
    {
        self.board.is_game_over() || self.consecutive_passes >= 2
    }

    /// How long the player to move may think: a day without a clock,
    /// otherwise its remaining time (at least 1 ms).
    pub fn time_budget_ms(&self, unlimited: bool) -> (r: u64)
        requires
            state_ok(*self),
        ensures
            r == if unlimited {
                86_400_000int
            } else if remaining_of(*self, self.turn) < 1 {
                1int
            } else {
                remaining_of(*self, self.turn) as int
            },
    {
        if unlimited {
            86_400_000
        } else {
            let rem = if self.turn == Color::Black {
                self.black_remaining_ms
            } else {
                self.white_remaining_ms
            };
            if rem < 1 {
                1
            } else {
                rem as u64
            }
        }
    }

    /// The result of a game that ended by itself: the stones decide.
    pub fn final_result(&self) -> (r: MatchResult)
        ensures
            r.black_stones == stones(self.board@, Color::Black),
            r.white_stones == stones(self.board@, Color::White),
            r.winner_color == winner_by_count(r.black_stones as nat, r.white_stones as nat),
            r.reason@ == "OK"@,
            r.black_name == self.black_name,
            r.white_name == self.white_name,
            r.moves@ == self.moves@,
    {
        let (b, w) = self.board.count_stones();
        let winner = if b > w {
            Some(Color::Black)
        } else if w > b {
            Some(Color::White)
        } else {
            None
        };
        MatchResult {
            black_name: self.black_name.clone(),
            white_name: self.white_name.clone(),
            winner_color: winner,
            black_stones: b,
            white_stones: w,
            reason: String::from_str("OK"),
            moves: copy_strings(&self.moves),
        }
    }

    fn finish(&self, winner: Color, reason: String) -> (r: MatchResult)
        ensures
            r.black_stones == stones(self.board@, Color::Black),
            r.white_stones == stones(self.board@, Color::White),
            r.winner_color == Some(winner),
            r.reason == reason,
            r.black_name == self.black_name,
            r.white_name == self.white_name,
            r.moves@ == self.moves@,
    {
        let (b, w) = self.board.count_stones();
        MatchResult {
            black_name: self.black_name.clone(),
            white_name: self.white_name.clone(),
            winner_color: Some(winner),
            black_stones: b,
            white_stones: w,
            reason,
            moves: copy_strings(&self.moves),
        }
    }

    /// Plays the move chosen by the player to move, which thought for
    /// `elapsed_ms` (ms) with (`unlimited`) or without a clock.
    ///
    /// The move is written to the game record and the clock runs down.
    /// Resigning, or running out of time, loses: the reason is
    /// `<name>_gave_up_or_disconnected` or `<name>_time_out`. A player with
    /// no legal move passes, whatever it sent. A move that the board
    /// refuses loses with reason `Invalid_move_<move>`. Otherwise the move
    /// is played and the turn passes.
    pub fn play_turn(&mut self, chosen: Move, unlimited: bool, elapsed_ms: i32) -> (r: TurnOutcome)
        requires
            state_ok(*old(self)),
            !game_ended(*old(self)),
            printable(chosen),
        ensures
            ({
                let o = *old(self);
                let f = *final(self);
                let mover = o.turn;
                let new_clock = clock_after(remaining_of(o, mover), unlimited, elapsed_ms);
                let timed_out = !unlimited && new_clock <= 0;
                let loser_name = if mover == Color::Black {
                    o.black_name@
                } else {
                    o.white_name@
                };
                &&& f.moves@.len() == o.moves@.len() + 1
                &&& f.moves@.drop_last() == o.moves@
                &&& f.moves@.last()@ == move_text(chosen)
                &&& remaining_of(f, mover) == new_clock
                &&& remaining_of(f, mover.opposite()) == remaining_of(o, mover.opposite())
                &&& f.black_name == o.black_name
                &&& f.white_name == o.white_name
                &&& if chosen == Move::GiveUp || timed_out {
                    &&& f.board@ == o.board@
                    &&& r matches TurnOutcome::Finished(res)
                    &&& res.winner_color == Some(mover.opposite())
                    &&& res.black_stones == stones(o.board@, Color::Black)
                    &&& res.white_stones == stones(o.board@, Color::White)
                    &&& res.reason@ == loser_name + if timed_out {
                        "_time_out"@
                    } else {
                        "_gave_up_or_disconnected"@
                    }
                    &&& res.moves@ == f.moves@
                    &&& res.black_name == o.black_name
                    &&& res.white_name == o.white_name
                } else if legal_moves(o.board@, mover).len() == 0 {
                    &&& f.board@ == o.board@
                    &&& f.consecutive_passes == o.consecutive_passes + 1
                    &&& f.turn == mover.opposite()
                    &&& r == (TurnOutcome::Continue {
                        mover,
                        announced: Move::Pass,
                        remaining_ms: new_clock as i32,
                        counted: false,
                    })
                    &&& state_ok(f) || game_ended(f)
                } else if !(chosen matches Move::Coord { x, y } ==> is_legal(
                    o.board@,
                    mover,
                    x as int,
                    y as int,
                )) {
                    &&& f.board@ == o.board@
                    &&& r matches TurnOutcome::Finished(res)
                    &&& res.winner_color == Some(mover.opposite())
                    &&& res.black_stones == stones(o.board@, Color::Black)
                    &&& res.white_stones == stones(o.board@, Color::White)
                    &&& res.reason@ == "Invalid_move_"@ + move_text(chosen)
                    &&& res.moves@ == f.moves@
                    &&& res.black_name == o.black_name
                    &&& res.white_name == o.white_name
                } else {
                    &&& f.board@ == match chosen {
                        Move::Coord { x, y } => play(o.board@, mover, x as int, y as int),
                        _ => o.board@,
                    }
                    &&& f.consecutive_passes == 0
                    &&& f.turn == mover.opposite()
                    &&& r == (TurnOutcome::Continue {
                        mover,
                        announced: chosen,
                        remaining_ms: new_clock as i32,
                        counted: true,
                    })
                    &&& state_ok(f)
                }
            }),
    {
        let mover = self.turn;
        let legal = self.board.valid_moves(mover);
        let current = if mover == Color::Black {
            self.black_remaining_ms
        } else {
            self.white_remaining_ms
        };
        let new_clock: i32 = if unlimited {
            current
        } else {
            let cost: i32 = if elapsed_ms < 1 {
                1
            } else {
                elapsed_ms
            };
            if current - cost < 0 {
                0
            } else {
                current - cost
            }
        };
        if mover == Color::Black {
            self.black_remaining_ms = new_clock;
        } else {
            self.white_remaining_ms = new_clock;
        }
        let ghost before_moves = self.moves@;
        self.moves.push(chosen.to_string());
        assert(self.moves@.drop_last() =~= before_moves);
        let timed_out = !unlimited && new_clock <= 0;
        let is_give_up = match chosen {
            Move::GiveUp => true,
            _ => false,
        };
        if is_give_up || timed_out {
            let mut reason = if mover == Color::Black {
                self.black_name.clone()
            } else {
                self.white_name.clone()
            };
            if timed_out {
                push_str(&mut reason, "_time_out");
            } else {
                push_str(&mut reason, "_gave_up_or_disconnected");
            }
            let res = self.finish(mover.opposite(), reason);
            return TurnOutcome::Finished(res);
        }
        if legal.len() == 0 {
            self.consecutive_passes = self.consecutive_passes + 1;
            self.turn = mover.opposite();
            return TurnOutcome::Continue {
                mover,
                announced: Move::Pass,
                remaining_ms: new_clock,
                counted: false,
            };
        }
        if !self.board.apply_move(chosen, mover) {
            let mut reason = String::from_str("Invalid_move_");
            push_str(&mut reason, chosen.to_string().as_str());
            let res = self.finish(mover.opposite(), reason);
            return TurnOutcome::Finished(res);
        }
        self.consecutive_passes = 0;
        self.turn = mover.opposite();
        TurnOutcome::Continue { mover, announced: chosen, remaining_ms: new_clock, counted: true }
    }
}

/// Seats two players by colour: the first takes White when
/// `first_is_white`, Black otherwise. Gives (Black, White).
pub fn seat_by_colour(first: Participant, second: Participant, first_is_white: bool) -> (r: (
    Participant,
    Participant,
))
    ensures
        if first_is_white {
            r.0 == second && r.1 == first
        } else {
            r.0 == first && r.1 == second
        },
{
    if first_is_white {
        (second, first)
    } else {
        (first, second)
    }
}

/// The players of a game seated by `seat_by_colour`, given back as (Black,
/// White), in their first and second places again.
pub fn unseat(black: Participant, white: Participant, first_is_white: bool) -> (r: (
    Participant,
    Participant,
))
    ensures
        if first_is_white {
            r.0 == white && r.1 == black
        } else {
            r.0 == black && r.1 == white
        },
{
    if first_is_white {
        (white, black)
    } else {
        (black, white)
    }
}

/// The END message for the player of `side`: its result, its own stone
/// count first, and the reason.
pub fn end_command_for(side: Color, winner: Option<Color>, black_stones: u32, white_stones: u32, reason: &str) -> (r: ServerCommand)
    requires
        side == Color::Black || side == Color::White,
    ensures
        r matches ServerCommand::End { result, your_stone_count, opponent_stone_count, reason: rs } && result
            == result_for(side, winner) && your_stone_count == if side == Color::Black {
            black_stones
        } else {
            white_stones
        } && opponent_stone_count == if side == Color::Black {
            white_stones
        } else {
            black_stones
        } && rs@ == reason@,
{
    let result = match winner {
        Some(c) => if c == side {
            Wl::Win
        } else {
            Wl::Lose
        },
        None => Wl::Tie,
    };
    let (mine, theirs) = if side == Color::Black {
        (black_stones, white_stones)
    } else {
        (white_stones, black_stones)
    };
    ServerCommand::End {
        result,
        your_stone_count: mine,
        opponent_stone_count: theirs,
        reason: String::from_str(reason),
    }
}

/// The time told to a player: a day without a clock, else what is left.
pub fn announced_time(unlimited: bool, remaining_ms: i32) -> (r: i32)
    ensures
        r == if unlimited {
            UNLIMITED_MS
        } else {
            remaining_ms
        },
{
    if unlimited {
        UNLIMITED_MS
    } else {
        remaining_ms
    }
}

/// The START message for the player of `color` facing `opponent_name`.
pub fn start_command(color: Color, opponent_name: &str, unlimited: bool, remaining_ms: i32) -> (r: ServerCommand)
    ensures
        r matches ServerCommand::Start { color: c, opponent_name: o, assigned_time_ms: t } && c
            == color && o@ == opponent_name@ && t == if unlimited {
            UNLIMITED_MS
        } else {
            remaining_ms
        },
{
    ServerCommand::Start {
        color,
        opponent_name: String::from_str(opponent_name),
        assigned_time_ms: announced_time(unlimited, remaining_ms),
    }
}

/// The record of a finished match for the history.
pub fn finished_record(match_id: &str, mode_name: &str, res: &MatchResult, finished_at_sec: u64) -> (r: FinishedMatchInfo)
    ensures
        r.match_id@ == match_id@,
        r.mode@ == mode_name@,
        r.black_name == res.black_name,
        r.white_name == res.white_name,
        r.winner_color matches Some(w) ==> res.winner_color matches Some(c) && w@ == c.name(),
        r.winner_color is None <==> res.winner_color is None,
        r.black_stones == res.black_stones,
        r.white_stones == res.white_stones,
        r.reason == res.reason,
        r.moves@ == res.moves@,
        r.finished_at_sec == finished_at_sec,
{
    FinishedMatchInfo {
        match_id: String::from_str(match_id),
        mode: String::from_str(mode_name),
        black_name: res.black_name.clone(),
        white_name: res.white_name.clone(),
        winner_color: match res.winner_color {
            Some(c) => Some(c.to_string()),
            None => None,
        },
        black_stones: res.black_stones,
        white_stones: res.white_stones,
        reason: res.reason.clone(),
        moves: copy_strings(&res.moves),
        finished_at_sec,
    }
}

/// How the two players see the end of a game: the player whose colour won
/// is told it won, the other that it lost, and both are told of a tie when
/// there is no winner; so Black and White never both win or both lose.
pub proof fn law_end_results(w: Option<Color>)
    requires
        w matches Some(c) ==> c == Color::Black || c == Color::White,
    ensures
        result_for(Color::Black, w) == Wl::Win <==> w == Some(Color::Black),
        result_for(Color::White, w) == Wl::Win <==> w == Some(Color::White),
        result_for(Color::Black, w) == Wl::Lose <==> w == Some(Color::White),
        result_for(Color::White, w) == Wl::Lose <==> w == Some(Color::Black),
        result_for(Color::Black, w) == Wl::Tie <==> w is None,
        result_for(Color::White, w) == Wl::Tie <==> w is None,
        w is Some ==> (result_for(Color::Black, w) == Wl::Win <==> result_for(Color::White, w) == Wl::Lose),
{
}

} // verus!
