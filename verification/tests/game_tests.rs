use reversi_server::game::board::Board;
use reversi_server::game::color::{Color, PreferredColor};
use reversi_server::game::move_kind::Move;

#[test]
fn test_move_parse_and_display() {
    let m1 = Move::from_str("C4").unwrap();
    assert_eq!(m1, Move::Coord { x: 3, y: 4 });
    assert_eq!(m1.to_string(), "C4");

    let m_pass = Move::from_str("PASS").unwrap();
    assert_eq!(m_pass, Move::Pass);
    assert_eq!(m_pass.to_string(), "PASS");
}

#[test]
fn move_parse_ignores_case_and_space() {
    assert_eq!(Move::from_str("  d3 \n"), Some(Move::Coord { x: 4, y: 3 }));
    assert_eq!(Move::from_str("giveup"), Some(Move::GiveUp));
    assert_eq!(Move::from_str("pass"), Some(Move::Pass));
    assert_eq!(Move::from_str("H8"), Some(Move::Coord { x: 8, y: 8 }));
    assert_eq!(Move::from_str("A1"), Some(Move::Coord { x: 1, y: 1 }));
}

#[test]
fn move_parse_rejects() {
    assert_eq!(Move::from_str("I1"), None);
    assert_eq!(Move::from_str("A9"), None);
    assert_eq!(Move::from_str("A0"), None);
    assert_eq!(Move::from_str("A10"), None);
    assert_eq!(Move::from_str(""), None);
    assert_eq!(Move::from_str("PAS"), None);
}

#[test]
fn move_from_normalized_is_case_sensitive() {
    assert_eq!(Move::from_normalized("D3"), Some(Move::Coord { x: 4, y: 3 }));
    assert_eq!(Move::from_normalized("d3"), None);
    assert_eq!(Move::from_normalized("GIVEUP"), Some(Move::GiveUp));
}

#[test]
fn move_display_round_trip() {
    for x in 1..=8u8 {
        for y in 1..=8u8 {
            let m = Move::Coord { x, y };
            assert_eq!(Move::from_str(&m.to_string()), Some(m));
        }
    }
    assert_eq!(Move::GiveUp.to_string(), "GIVEUP");
}

#[test]
fn color_opposite_and_names() {
    assert_eq!(Color::Black.opposite(), Color::White);
    assert_eq!(Color::White.opposite(), Color::Black);
    assert_eq!(Color::Empty.opposite(), Color::Empty);
    assert_eq!(Color::Sentinel.opposite(), Color::Sentinel);
    assert_eq!(Color::Black.to_char(), 'X');
    assert_eq!(Color::White.to_char(), 'O');
    assert_eq!(Color::Empty.to_char(), '.');
    assert_eq!(Color::Sentinel.to_char(), '#');
    assert_eq!(Color::Black.to_string(), "BLACK");
    assert_eq!(Color::White.to_string(), "WHITE");
    assert_eq!(Color::Empty.to_string(), "EMPTY");
    assert_eq!(Color::Sentinel.to_string(), "SENTINEL");
}

#[test]
fn preferred_color_parsing() {
    assert_eq!(PreferredColor::from_str("black"), PreferredColor::Black);
    assert_eq!(PreferredColor::from_str("B"), PreferredColor::Black);
    assert_eq!(PreferredColor::from_str("WHITE"), PreferredColor::White);
    assert_eq!(PreferredColor::from_str("w"), PreferredColor::White);
    assert_eq!(PreferredColor::from_str("random"), PreferredColor::Random);
    assert_eq!(PreferredColor::from_str("blue"), PreferredColor::Random);
    assert_eq!(PreferredColor::from_lowered("Black"), PreferredColor::Random);
    assert!(PreferredColor::White.plays_white(false));
    assert!(!PreferredColor::Black.plays_white(true));
    assert!(PreferredColor::Random.plays_white(true));
    assert!(!PreferredColor::Random.plays_white(false));
}

#[test]
fn initial_board() {
    let b = Board::new();
    assert_eq!(b.count_stones(), (2, 2));
    assert_eq!(b.get((4, 4)), Color::White);
    assert_eq!(b.get((5, 5)), Color::White);
    assert_eq!(b.get((4, 5)), Color::Black);
    assert_eq!(b.get((5, 4)), Color::Black);
    assert_eq!(b.get((0, 3)), Color::Sentinel);
    assert_eq!(b.get((9, 9)), Color::Sentinel);
    assert_eq!(b.get((1, 1)), Color::Empty);
    assert_eq!(b.valid_moves(Color::Black), vec![(3, 4), (4, 3), (5, 6), (6, 5)]);
    assert_eq!(b.valid_moves(Color::White), vec![(3, 5), (4, 6), (5, 3), (6, 4)]);
    assert!(!b.is_game_over());
    assert!(b.is_valid_move(Color::Black, (3, 4)));
    assert!(!b.is_valid_move(Color::Black, (4, 4)));
    assert!(!b.is_valid_move(Color::Black, (1, 1)));
}

#[test]
fn flips_and_apply() {
    let mut b = Board::new();
    assert_eq!(b.flippable_indices(Color::Black, (3, 4)), vec![(4, 4)]);
    assert!(b.apply_move(Move::Coord { x: 3, y: 4 }, Color::Black));
    assert_eq!(b.get((3, 4)), Color::Black);
    assert_eq!(b.get((4, 4)), Color::Black);
    assert_eq!(b.count_stones(), (4, 1));
    // An occupied square is refused and nothing changes.
    let before = b.clone();
    assert!(!b.apply_move(Move::Coord { x: 3, y: 4 }, Color::White));
    assert_eq!(b, before);
    // A square that turns nothing is refused.
    assert!(!b.apply_move(Move::Coord { x: 1, y: 1 }, Color::White));
    assert_eq!(b, before);
    // Out-of-range squares turn nothing.
    assert!(!b.apply_move(Move::Coord { x: 200, y: 3 }, Color::White));
    // Pass and resignation are accepted and change nothing.
    assert!(b.apply_move(Move::Pass, Color::White));
    assert!(b.apply_move(Move::GiveUp, Color::White));
    assert_eq!(b, before);
}

#[test]
fn multi_direction_flip() {
    // Black at D3 and F3? Build: after C4 (black), white plays C5 turning D5? Use a sequence.
    let mut b = Board::new();
    assert!(b.apply_move(Move::Coord { x: 3, y: 4 }, Color::Black));
    assert!(b.apply_move(Move::Coord { x: 3, y: 3 }, Color::White));
    assert_eq!(b.count_stones(), (3, 3));
    let moves = b.valid_moves(Color::Black);
    assert!(!moves.is_empty());
    for p in moves {
        let mut c = b.clone();
        let n = c.flippable_indices(Color::Black, p).len() as u32;
        let (b0, w0) = c.count_stones();
        assert!(c.apply_move(Move::Coord { x: p.0 as u8, y: p.1 as u8 }, Color::Black));
        let (b1, w1) = c.count_stones();
        assert_eq!(b1, b0 + 1 + n);
        assert_eq!(w1 + n, w0);
    }
}

#[test]
fn set_and_game_over() {
    let mut b = Board::new();
    for x in 1..=8 {
        for y in 1..=8 {
            b.set((x, y), Color::Black);
        }
    }
    assert!(b.is_game_over());
    assert_eq!(b.count_stones(), (64, 0));
    assert!(b.valid_moves(Color::White).is_empty());
}

#[test]
fn egaroucid_array_layout() {
    let b = Board::new();
    let arr = b.to_egaroucid_array();
    // index (y-1)*8 + (x-1)
    assert_eq!(arr[(4 - 1) * 8 + (4 - 1)], 1);
    assert_eq!(arr[(5 - 1) * 8 + (5 - 1)], 1);
    assert_eq!(arr[(5 - 1) * 8 + (4 - 1)], 0);
    assert_eq!(arr[(4 - 1) * 8 + (5 - 1)], 0);
    assert_eq!(arr.iter().filter(|v| **v == -1).count(), 60);
}

#[test]
fn board_default_is_start_position() {
    let b = Board::default();
    assert_eq!(b, Board::new());
    assert_eq!(b.count_stones(), (2, 2));
}

#[test]
fn decide_white_follows_a_stated_preference() {
    assert!(PreferredColor::White.decide_white());
    assert!(!PreferredColor::Black.decide_white());
    let _ = PreferredColor::Random.decide_white();
}

#[test]
fn apply_move_keeps_frame() {
    let mut b = Board::new();
    let start = b.clone();
    assert!(!b.apply_move(Move::Coord { x: 0, y: 4 }, Color::Black));
    assert!(!b.apply_move(Move::Coord { x: 200, y: 250 }, Color::Black));
    assert!(!b.apply_move(Move::Coord { x: 3, y: 4 }, Color::Empty));
    assert!(!b.apply_move(Move::Coord { x: 3, y: 4 }, Color::Sentinel));
    assert_eq!(b, start);
    assert!(b.apply_move(Move::Coord { x: 3, y: 4 }, Color::Black));
    for i in 0..10usize {
        assert_eq!(b.get((0, i)), Color::Sentinel);
        assert_eq!(b.get((9, i)), Color::Sentinel);
        assert_eq!(b.get((i, 0)), Color::Sentinel);
        assert_eq!(b.get((i, 9)), Color::Sentinel);
    }
    for x in 1..=8usize {
        for y in 1..=8usize {
            assert_ne!(b.get((x, y)), Color::Sentinel);
        }
    }
}
