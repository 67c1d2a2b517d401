//! Reading a client's line.
use vstd::prelude::*;
use crate::game::move_kind::{move_of_text, Move};
use crate::text::{
    is_ws, lemma_trim_unchanged, lemma_two_words, lemma_words_shape, no_ws, plain_upper, push_str,
    split_words, str_eq, string_from_chars, to_uppercase, trim, trim_chars, uppercase, words,
};
use crate::game::move_kind::{law_move_text_roundtrip, move_of_normalized, move_text};
use super::proto::{wire_text, ServerCommand};
use super::proto::ClientCommand;

verus! {

/// What a line means: a command, or the reason it was refused.
pub enum Parsed {
    Open(Seq<char>),
    Play(Move),
    Refused(Seq<char>),
}

/// The meaning of the outcome of a parse.
pub open spec fn parsed_of(r: Result<ClientCommand, String>) -> Parsed {
    match r {
        Ok(ClientCommand::Open { player_name }) => Parsed::Open(player_name@),
        Ok(ClientCommand::Move(m)) => Parsed::Play(m),
        Err(e) => Parsed::Refused(e@),
    }
}

/// The meaning of a command word (already upper-cased), its argument, and
/// the move that the argument names.
pub open spec fn command_of_words(cmd: Seq<char>, arg: Option<Seq<char>>, arg_move: Option<Move>) -> Parsed {
    if cmd == "OPEN"@ {
        Parsed::Open(
            match arg {
                Some(a) => a,
                None => "Anon"@,
            },
        )
    } else if cmd == "MOVE"@ {
        match arg {
            None => Parsed::Refused("Missing move argument"@),
            Some(a) => match arg_move {
                Some(m) => Parsed::Play(m),
                None => Parsed::Refused("Invalid move argument: "@ + a),
            },
        }
    } else {
        Parsed::Refused("Unknown command: "@ + cmd)
    }
}

/// The meaning of a line: blank lines are refused; otherwise the first
/// word, upper-cased, is the command and the second word its argument.
pub open spec fn command_of_line(l: Seq<char>) -> Parsed {
    let t = trim(l);
    if t.len() == 0 {
        Parsed::Refused("Empty line"@)
    } else {
        let ws = words(t);
        if ws.len() == 0 {
            Parsed::Refused("Missing command"@)
        } else {
            command_of_words(
                uppercase(ws[0]),
                if ws.len() > 1 {
                    Some(ws[1])
                } else {
                    None
                },
                if ws.len() > 1 {
                    move_of_text(ws[1])
                } else {
                    None
                },
            )
        }
    }
}

/// A line whose command word, and whose argument when the command is
/// `MOVE`, are written in capital letters and digits only: no case needs
/// changing to read it.
pub open spec fn plainly_written(l: Seq<char>) -> bool {
    let ws = words(trim(l));
    &&& ws.len() > 0
    &&& plain_upper(ws[0])
    &&& ws.len() > 1 && ws[0] == "MOVE"@ ==> plain_upper(ws[1])
}

/// The meaning of a plainly written line: as `command_of_line`, with the
/// words taken as they are written.
pub open spec fn command_of_plain_line(l: Seq<char>) -> Parsed {
    let ws = words(trim(l));
    command_of_words(
        ws[0],
        if ws.len() > 1 {
            Some(ws[1])
        } else {
            None
        },
        if ws.len() > 1 && plain_upper(ws[1]) {
            move_of_normalized(ws[1])
        } else {
            None
        },
    )
}

/// Builds the command from its upper-cased command word, its argument (the
/// second word, if any) and the move that the argument reads as.
pub fn command_from_words(cmd: &str, arg: Option<&str>, arg_move: Option<Move>) -> (r: Result<
    ClientCommand,
    String,
>)
    ensures
        parsed_of(r) == command_of_words(
            cmd@,
            match arg {
                Some(a) => Some(a@),
                None => None,
            },
            arg_move,
        ),
{
    if str_eq(cmd, "OPEN") {
        let name = match arg {
            Some(a) => String::from_str(a),
            None => String::from_str("Anon"),
        };
        Ok(ClientCommand::Open { player_name: name })
    } else if str_eq(cmd, "MOVE") {
        match arg {
            None => Err(String::from_str("Missing move argument")),
            Some(a) => match arg_move {
                Some(m) => Ok(ClientCommand::Move(m)),
                None => {
                    let mut e = String::from_str("Invalid move argument: ");
                    push_str(&mut e, a);
                    Err(e)
                },
            },
        }
    } else {
        let mut e = String::from_str("Unknown command: ");
        push_str(&mut e, cmd);
        Err(e)
    }
}

/// Reads one line from a client.
pub fn parse_client_command(line: &str) -> (r: Result<ClientCommand, String>)
    ensures
        parsed_of(r) == command_of_line(line@),
        plainly_written(line@) ==> parsed_of(r) == command_of_plain_line(line@),
{
    proof {
        lemma_words_shape(trim(line@), seq![]);
    }
    let t = trim_chars(line);
    if t.len() == 0 {
        return Err(String::from_str("Empty line"));
    }
    let ws = split_words(&t);
    proof {
        assert(ws@.map_values(|w: Vec<char>| w@).len() == ws@.len());
    }
    if ws.len() == 0 {
        return Err(String::from_str("Missing command"));
    }
    let cmd_text = string_from_chars(&ws[0]);
    let cmd = to_uppercase(cmd_text.as_str());
    proof {
        assert(ws@.map_values(|w: Vec<char>| w@)[0] == ws@[0]@);
    }
    if ws.len() > 1 {
        let arg = string_from_chars(&ws[1]);
        proof {
            assert(ws@.map_values(|w: Vec<char>| w@)[1] == ws@[1]@);
        }
        let m = Move::from_str(arg.as_str());
        proof {
            lemma_trim_unchanged(arg@);
            reveal_strlit("MOVE");
            reveal_strlit("OPEN");
        }
        command_from_words(cmd.as_str(), Some(arg.as_str()), m)
    } else {
        command_from_words(cmd.as_str(), None, None)
    }
}

/// Reading back a printed command gives the command: the line that the
/// server writes for a move (`MOVE` and the move) reads as that move, and
/// `OPEN`, a space, a name without white space and a line end reads as
/// that name.
pub proof fn law_printed_command_read_back(m: Move, n: Seq<char>)
    requires
        m matches Move::Coord { x, y } ==> 1 <= x <= 8 && 1 <= y <= 8,
        n.len() > 0,
        no_ws(n),
    ensures
        plainly_written(wire_text(ServerCommand::Move(m))),
        command_of_plain_line(wire_text(ServerCommand::Move(m))) == Parsed::Play(m),
        plainly_written(seq!['O', 'P', 'E', 'N', ' '] + n + seq!['\n']),
        command_of_plain_line(seq!['O', 'P', 'E', 'N', ' '] + n + seq!['\n']) == Parsed::Open(n),
{
    reveal_strlit("MOVE");
    reveal_strlit("OPEN");
    let mv = seq!['M', 'O', 'V', 'E'];
    let op = seq!['O', 'P', 'E', 'N'];
    assert(mv =~= "MOVE"@);
    assert(op =~= "OPEN"@);
    assert(no_ws(mv));
    assert(no_ws(op));
    assert(plain_upper(mv));
    assert(plain_upper(op));
    let t = move_text(m);
    assert(no_ws(t) && plain_upper(t) && t.len() > 0);
    let line = wire_text(ServerCommand::Move(m));
    assert(line =~= mv + seq![' '] + t);
    lemma_trim_unchanged(line);
    lemma_two_words(mv, t);
    law_move_text_roundtrip(m);
    let open_line = op + seq![' '] + n + seq!['\n'];
    assert(seq!['O', 'P', 'E', 'N', ' '] + n + seq!['\n'] =~= open_line);
    let body = op + seq![' '] + n;
    assert(open_line.drop_last() =~= body);
    assert(is_ws(open_line.last()));
    assert(n[n.len() - 1] == body.last());
    lemma_trim_unchanged(body);
    assert(trim(open_line) == body);
    lemma_two_words(op, n);
}

} // verus!
