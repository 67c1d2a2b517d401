use reversi_server::ai::egaroucid_ai::EgaroucidAi;
use reversi_server::ai::random_ai::{decide_random_move, move_from_draw};
use reversi_server::game::board::Board;
use reversi_server::game::color::Color;
use reversi_server::game::move_kind::Move;

#[test]
fn random_move_is_legal() {
    let b = Board::new();
    for _ in 0..20 {
        match decide_random_move(&b, Color::Black) {
            Move::Coord { x, y } => assert!(b.is_valid_move(Color::Black, (x as usize, y as usize))),
            other => panic!("unexpected {other:?}"),
        }
    }
}

#[test]
fn random_move_passes_without_moves() {
    let mut b = Board::new();
    for x in 1..=8 {
        for y in 1..=8 {
            b.set((x, y), Color::Black);
        }
    }
    assert_eq!(decide_random_move(&b, Color::White), Move::Pass);
    assert_eq!(move_from_draw(&b, Color::White, 3), Move::Pass);
}

#[test]
fn move_from_draw_picks_index() {
    let b = Board::new();
    assert_eq!(move_from_draw(&b, Color::Black, 0), Move::Coord { x: 3, y: 4 });
    assert_eq!(move_from_draw(&b, Color::Black, 2), Move::Coord { x: 5, y: 6 });
    assert_eq!(move_from_draw(&b, Color::Black, 5), Move::Coord { x: 4, y: 3 });
}

#[test]
fn engine_request_and_answer() {
    let ai = EgaroucidAi::new(25, false, 1500);
    let b = Board::new();
    let q = ai.engine_request(&b, Color::White).unwrap();
    assert_eq!(q.level, 20);
    assert_eq!(q.player, 1);
    assert_eq!(q.time_limit_ms, 1500);
    assert_eq!(q.use_book, 0);
    assert_eq!(q.board, b.to_egaroucid_array());
    let low = EgaroucidAi::new(-3, true, 10).engine_request(&b, Color::Black).unwrap();
    assert_eq!(low.level, 0);
    assert_eq!(low.player, 0);
    assert_eq!(low.use_book, 1);
    // D3 is (x=4, y=3): raw = (3-1)*8 + (4-1) = 19.
    assert_eq!(EgaroucidAi::move_from_engine(&b, Color::Black, 19), Move::Coord { x: 4, y: 3 });
    // An illegal or missing answer falls back to the first legal move.
    assert_eq!(EgaroucidAi::move_from_engine(&b, Color::Black, 0), Move::Coord { x: 3, y: 4 });
    assert_eq!(EgaroucidAi::move_from_engine(&b, Color::Black, -1), Move::Coord { x: 3, y: 4 });
    assert_eq!(EgaroucidAi::move_from_engine(&b, Color::Black, 64), Move::Coord { x: 3, y: 4 });
}

#[test]
fn engine_request_none_without_moves() {
    let mut b = Board::new();
    for x in 1..=8 {
        for y in 1..=8 {
            b.set((x, y), Color::White);
        }
    }
    assert!(EgaroucidAi::new(3, true, 1000).engine_request(&b, Color::Black).is_none());
}
