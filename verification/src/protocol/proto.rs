//! Commands of the protocol and their text form.
use vstd::prelude::*;
use crate::game::color::Color;
use crate::game::move_kind::{move_text, printable, Move};
use crate::text::{decimal, push_char, push_decimal, push_signed_decimal, push_str, signed_decimal};

verus! {

/// The result of a game for one player.
#[derive(Debug, Clone, PartialEq, Eq, Structural)]
pub enum Wl {
    Win,
    Lose,
    Tie,
}

/// The text form of a result.
pub open spec fn wl_text(w: Wl) -> Seq<char> {
    match w {
        Wl::Win => seq!['W', 'I', 'N'],
        Wl::Lose => seq!['L', 'O', 'S', 'E'],
        Wl::Tie => seq!['T', 'I', 'E'],
    }
}

impl Wl {
    /// `WIN`, `LOSE` or `TIE`.
    pub fn to_string(&self) -> (r: String)
        ensures
            r@ == wl_text(*self),
    {
        let mut s = String::new();
        match self {
            Wl::Win => {
                push_char(&mut s, 'W');
                push_char(&mut s, 'I');
                push_char(&mut s, 'N');
            },
            Wl::Lose => {
                push_char(&mut s, 'L');
                push_char(&mut s, 'O');
                push_char(&mut s, 'S');
                push_char(&mut s, 'E');
            },
            Wl::Tie => {
                push_char(&mut s, 'T');
                push_char(&mut s, 'I');
                push_char(&mut s, 'E');
            },
        }
        assert(s@ =~= wl_text(*self));
        s
    }
}

/// A player's standing in a tournament.
#[derive(Debug, Clone, PartialEq, Eq)]
pub struct PlayerStat {
    pub player_name: String,
    pub score: i32,
    pub wins: u32,
    pub loses: u32,
}

/// `name score wins loses`, separated by single spaces.
pub open spec fn stat_text(s: PlayerStat) -> Seq<char> {
    s.player_name@ + seq![' '] + signed_decimal(s.score as int) + seq![' '] + decimal(
        s.wins as nat,
    ) + seq![' '] + decimal(s.loses as nat)
}

/// A copy of a list of standings.
pub fn copy_stats(v: &Vec<PlayerStat>) -> (r: Vec<PlayerStat>)
    ensures
        r@ == v@,
{
    let mut out: Vec<PlayerStat> = Vec::new();
    let mut i: usize = 0;
    while i < v.len()
        invariant
            i <= v.len(),
            out@ == v@.take(i as int),
        decreases v.len() - i,
    {
        out.push(v[i].duplicate());
        i += 1;
        assert(out@ =~= v@.take(i as int));
    }
    assert(v@.take(v.len() as int) =~= v@);
    out
}

/// The standings, separated by single spaces.
pub open spec fn stats_text(st: Seq<PlayerStat>) -> Seq<char>
    decreases st.len(),
{
    if st.len() == 0 {
        seq![]
    } else if st.len() == 1 {
        stat_text(st[0])
    } else {
        stats_text(st.drop_last()) + seq![' '] + stat_text(st.last())
    }
}

fn push_stat(s: &mut String, st: &PlayerStat)
    ensures
        final(s)@ == old(s)@ + stat_text(*st),
{
    push_str(s, st.player_name.as_str());
    push_char(s, ' ');
    push_signed_decimal(s, st.score as i64);
    push_char(s, ' ');
    push_decimal(s, st.wins as u64);
    push_char(s, ' ');
    push_decimal(s, st.loses as u64);
    assert(final(s)@ =~= old(s)@ + stat_text(*st));
}

impl PlayerStat {
    /// A copy of the standing.
    pub fn duplicate(&self) -> (r: PlayerStat)
        ensures
            r == *self,
    {
        PlayerStat {
            player_name: self.player_name.clone(),
            score: self.score,
            wins: self.wins,
            loses: self.loses,
        }
    }

    /// `name score wins loses`.
    pub fn to_string(&self) -> (r: String)
        ensures
            r@ == stat_text(*self),
    {
        let mut s = String::new();
        push_stat(&mut s, self);
        assert(s@ =~= stat_text(*self));
        s
    }
}

/// What a client sends.
#[derive(Debug, Clone, PartialEq, Eq)]
pub enum ClientCommand {
    Open { player_name: String },
    Move(Move),
}

/// What the server sends.
#[derive(Debug, Clone, PartialEq, Eq)]
pub enum ServerCommand {
    Start { color: Color, opponent_name: String, assigned_time_ms: i32 },
    Move(Move),
    Ack { assigned_time_ms: i32 },
    End { result: Wl, your_stone_count: u32, opponent_stone_count: u32, reason: String },
    Bye { stats: Vec<PlayerStat> },
}

/// The reason as the END line writes it: `OK` when empty, spaces turned
/// into underscores otherwise.
pub open spec fn reason_text(r: Seq<char>) -> Seq<char> {
    if r.len() == 0 {
        seq!['O', 'K']
    } else {
        r.map_values(|ch: char| if ch == ' ' { '_' } else { ch })
    }
}

/// Commands whose text form can be written.
pub open spec fn writable(c: ServerCommand) -> bool {
    c matches ServerCommand::Move(m) ==> printable(m)
}

/// The text form of a server command (without line end).
pub open spec fn wire_text(c: ServerCommand) -> Seq<char> {
    match c {
        ServerCommand::Start { color, opponent_name, assigned_time_ms } => seq![
            'S',
            'T',
            'A',
            'R',
            'T',
            ' ',
        ] + color.name() + seq![' '] + opponent_name@ + seq![' '] + signed_decimal(
            assigned_time_ms as int,
        ),
        ServerCommand::Move(m) => seq!['M', 'O', 'V', 'E', ' '] + move_text(m),
        ServerCommand::Ack { .. } => seq!['A', 'C', 'K'],
        ServerCommand::End { result, your_stone_count, opponent_stone_count, reason } => seq![
            'E',
            'N',
            'D',
            ' ',
        ] + wl_text(result) + seq![' '] + decimal(your_stone_count as nat) + seq![' '] + decimal(
            opponent_stone_count as nat,
        ) + seq![' '] + reason_text(reason@),
        ServerCommand::Bye { stats } => seq!['B', 'Y', 'E', ' '] + stats_text(stats@),
    }
}

fn push_word(s: &mut String, w: &str)
    ensures
        final(s)@ == old(s)@ + w@,
{
    push_str(s, w);
}

fn push_reason(s: &mut String, reason: &String)
    ensures
        final(s)@ == old(s)@ + reason_text(reason@),
{
    let v = crate::text::chars_of(reason.as_str());
    if v.len() == 0 {
        push_char(s, 'O');
        push_char(s, 'K');
        assert(final(s)@ =~= old(s)@ + reason_text(reason@));
        return;
    }
    let ghost start = s@;
    let ghost mapped = reason@.map_values(|ch: char| if ch == ' ' { '_' } else { ch });
    let mut i: usize = 0;
    while i < v.len()
        invariant
            v@ == reason@,
            i <= v.len(),
            mapped == reason@.map_values(|ch: char| if ch == ' ' { '_' } else { ch }),
            s@ == start + mapped.take(i as int),
        decreases v.len() - i,
    {
        let ch = v[i];
        if ch == ' ' {
            push_char(s, '_');
        } else {
            push_char(s, ch);
        }
        i += 1;
        assert(s@ =~= start + mapped.take(i as int));
    }
    assert(mapped.take(v.len() as int) =~= mapped);
}

impl ServerCommand {
    /// The text form of the command, as sent on the wire (without line end).
    pub fn to_string(&self) -> (r: String)
        requires
            writable(*self),
        ensures
            r@ == wire_text(*self),
    {
        let mut s = String::new();
        match self {
            ServerCommand::Start { color, opponent_name, assigned_time_ms } => {
                push_word(&mut s, "START");
                push_char(&mut s, ' ');
                push_word(&mut s, color.to_string().as_str());
                push_char(&mut s, ' ');
                push_word(&mut s, opponent_name.as_str());
                push_char(&mut s, ' ');
                push_signed_decimal(&mut s, *assigned_time_ms as i64);
                proof {
                    reveal_strlit("START");
                }
            },
            ServerCommand::Move(m) => {
                push_word(&mut s, "MOVE");
                push_char(&mut s, ' ');
                push_word(&mut s, m.to_string().as_str());
                proof {
                    reveal_strlit("MOVE");
                }
            },
            ServerCommand::Ack { .. } => {
                push_word(&mut s, "ACK");
                proof {
                    reveal_strlit("ACK");
                }
            },
            ServerCommand::End { result, your_stone_count, opponent_stone_count, reason } => {
                push_word(&mut s, "END");
                push_char(&mut s, ' ');
                push_word(&mut s, result.to_string().as_str());
                push_char(&mut s, ' ');
                push_decimal(&mut s, *your_stone_count as u64);
                push_char(&mut s, ' ');
                push_decimal(&mut s, *opponent_stone_count as u64);
                push_char(&mut s, ' ');
                push_reason(&mut s, reason);
                proof {
                    reveal_strlit("END");
                }
            },
            ServerCommand::Bye { stats } => {
                push_word(&mut s, "BYE");
                push_char(&mut s, ' ');
                proof {
                    reveal_strlit("BYE");
                }
                let ghost head = s@;
                let mut i: usize = 0;
                while i < stats.len()
                    invariant
                        i <= stats.len(),
                        s@ == head + stats_text(stats@.take(i as int)),
                    decreases stats.len() - i,
                {
                    let ghost before = s@;
                    if i > 0 {
                        push_char(&mut s, ' ');
                    }
                    push_stat(&mut s, &stats[i]);
                    i += 1;
                    assert(stats@.take(i as int).drop_last() =~= stats@.take(i - 1));
                    if i == 1 {
                        assert(stats@.take(0) =~= Seq::<PlayerStat>::empty());
                    }
                }
                assert(stats@.take(stats.len() as int) =~= stats@);
            },
        }
        assert(s@ =~= wire_text(*self));
        s
    }
}

/// The reason in an END line is one word of the same length as the
/// reason: no space is left in it, every character other than a space is
/// kept where it was, an empty reason is written `OK`, and a reason without
/// spaces is written as it is.
pub proof fn law_reason_text(r: Seq<char>)
    ensures
        r.len() == 0 ==> reason_text(r) == seq!['O', 'K'],
        r.len() > 0 ==> reason_text(r).len() == r.len(),
        r.len() > 0 ==> forall|i: int| 0 <= i < r.len() && r[i] != ' ' ==> #[trigger] reason_text(r)[i] == r[i],
        forall|i: int| 0 <= i < reason_text(r).len() ==> #[trigger] reason_text(r)[i] != ' ',
        (r.len() > 0 && forall|i: int| 0 <= i < r.len() ==> r[i] != ' ') ==> reason_text(r) == r,
{
    if r.len() > 0 {
        let t = reason_text(r);
        assert forall|i: int| 0 <= i < t.len() implies #[trigger] t[i] != ' ' by {
            if r[i] == ' ' {
                assert(t[i] == '_');
            }
        }
        if forall|i: int| 0 <= i < r.len() ==> r[i] != ' ' {
            assert(t =~= r);
        }
    }
}

} // verus!
