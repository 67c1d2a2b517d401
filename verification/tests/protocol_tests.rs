use reversi_server::game::color::Color;
use reversi_server::game::move_kind::Move;
use reversi_server::protocol::parser::{command_from_words, parse_client_command};
use reversi_server::protocol::proto::{ClientCommand, PlayerStat, ServerCommand, Wl};

#[test]
fn test_parse_open() {
    let cmd = parse_client_command("OPEN Player1\n").unwrap();
    assert_eq!(
        cmd,
        ClientCommand::Open {
            player_name: "Player1".to_string()
        }
    );
}

#[test]
fn test_parse_move() {
    let cmd = parse_client_command("MOVE D3").unwrap();
    assert_eq!(cmd, ClientCommand::Move(Move::Coord { x: 4, y: 3 }));
}

#[test]
fn parse_open_without_name_is_anon() {
    assert_eq!(
        parse_client_command("open").unwrap(),
        ClientCommand::Open { player_name: "Anon".to_string() }
    );
    assert_eq!(
        parse_client_command("  Open   Alice   extra ").unwrap(),
        ClientCommand::Open { player_name: "Alice".to_string() }
    );
}

#[test]
fn parse_errors() {
    assert_eq!(parse_client_command("").unwrap_err(), "Empty line");
    assert_eq!(parse_client_command("  \t\r\n").unwrap_err(), "Empty line");
    assert_eq!(parse_client_command("MOVE").unwrap_err(), "Missing move argument");
    assert_eq!(parse_client_command("MOVE Z9").unwrap_err(), "Invalid move argument: Z9");
    assert_eq!(parse_client_command("hello world").unwrap_err(), "Unknown command: HELLO");
}

#[test]
fn parse_move_variants() {
    assert_eq!(parse_client_command("move pass").unwrap(), ClientCommand::Move(Move::Pass));
    assert_eq!(parse_client_command("MOVE giveup").unwrap(), ClientCommand::Move(Move::GiveUp));
    assert_eq!(parse_client_command("MOVE h8\r\n").unwrap(), ClientCommand::Move(Move::Coord { x: 8, y: 8 }));
}

#[test]
fn command_from_words_cases() {
    assert_eq!(
        command_from_words("OPEN", Some("Bob"), None).unwrap(),
        ClientCommand::Open { player_name: "Bob".to_string() }
    );
    assert_eq!(
        command_from_words("MOVE", Some("x"), Some(Move::Pass)).unwrap(),
        ClientCommand::Move(Move::Pass)
    );
    assert_eq!(command_from_words("MOVE", Some("x"), None).unwrap_err(), "Invalid move argument: x");
    assert_eq!(command_from_words("open", None, None).unwrap_err(), "Unknown command: open");
}

#[test]
fn server_command_text() {
    let start = ServerCommand::Start { color: Color::Black, opponent_name: "Bob".to_string(), assigned_time_ms: 1000 };
    assert_eq!(start.to_string(), "START BLACK Bob 1000");
    assert_eq!(ServerCommand::Move(Move::Coord { x: 4, y: 3 }).to_string(), "MOVE D3");
    assert_eq!(ServerCommand::Ack { assigned_time_ms: -5 }.to_string(), "ACK");
    assert_eq!(ServerCommand::Ack { assigned_time_ms: 1000 }.to_string(), "ACK");
    let end = ServerCommand::End {
        result: Wl::Win,
        your_stone_count: 40,
        opponent_stone_count: 24,
        reason: "".to_string(),
    };
    assert_eq!(end.to_string(), "END WIN 40 24 OK");
    let end2 = ServerCommand::End {
        result: Wl::Tie,
        your_stone_count: 32,
        opponent_stone_count: 32,
        reason: "a b c".to_string(),
    };
    assert_eq!(end2.to_string(), "END TIE 32 32 a_b_c");
    let bye = ServerCommand::Bye {
        stats: vec![
            PlayerStat { player_name: "A".to_string(), score: 2, wins: 2, loses: 0 },
            PlayerStat { player_name: "B".to_string(), score: -2, wins: 0, loses: 2 },
        ],
    };
    assert_eq!(bye.to_string(), "BYE A 2 2 0 B -2 0 2");
    assert_eq!(ServerCommand::Bye { stats: vec![] }.to_string(), "BYE ");
}

#[test]
fn wl_and_stat_text() {
    assert_eq!(Wl::Win.to_string(), "WIN");
    assert_eq!(Wl::Lose.to_string(), "LOSE");
    assert_eq!(Wl::Tie.to_string(), "TIE");
    let st = PlayerStat { player_name: "Z".to_string(), score: i32::MIN, wins: u32::MAX, loses: 0 };
    assert_eq!(st.to_string(), "Z -2147483648 4294967295 0");
    assert_eq!(st.duplicate(), st);
}

#[test]
fn printed_commands_read_back() {
    let mut moves = vec![Move::Pass, Move::GiveUp];
    for x in 1..=8u8 {
        for y in 1..=8u8 {
            moves.push(Move::Coord { x, y });
        }
    }
    for m in moves {
        let line = ServerCommand::Move(m).to_string();
        assert_eq!(parse_client_command(&line), Ok(ClientCommand::Move(m)));
    }
    assert_eq!(
        parse_client_command("OPEN alice_01\n"),
        Ok(ClientCommand::Open { player_name: "alice_01".to_string() })
    );
}
