use reversi_server::ai::random_ai::decide_random_move;
use reversi_server::game::color::{Color, PreferredColor};
use reversi_server::game::move_kind::Move;
use reversi_server::protocol::proto::{ClientCommand, PlayerStat, ServerCommand, Wl};
use reversi_server::server::active_matches::ActiveMatchRegistry;
use reversi_server::server::ai_match::{ai_match_stat, ai_opponent, engine_player_name, AiType};
use reversi_server::server::freematch::{first_player_is_black, FreeMatchQueue, PairingInfo};
use reversi_server::server::history::{FinishedMatchInfo, MatchHistoryRegistry, RoomTournamentResult};
use reversi_server::server::match_runner::{
    end_command_for, finished_record, seat_by_colour, start_command, unseat, MatchResult, MatchState, Participant,
    TurnOutcome,
};
use reversi_server::server::requests::{AddAiRequest, CreateRoomRequest, MatchQuery, DEFAULT_TIME_MS};
use reversi_server::server::room::{tournament_participants, Room, RoomManager, TournamentTally};
use reversi_server::server::round_robin::round_robin_schedule;
use reversi_server::server::session::{ActivePlayerSession, SessionHandle};
use reversi_server::server::wait_human::{returned_client, WaitHumanQueue};
use tokio::sync::mpsc;

fn mock_session(name: &str) -> (ActivePlayerSession, mpsc::UnboundedReceiver<ServerCommand>, mpsc::UnboundedSender<ClientCommand>) {
    let (tx, rx) = mpsc::unbounded_channel();
    let (cmd_tx, cmd_rx) = mpsc::unbounded_channel();
    let handle = SessionHandle::new(name.to_string(), tx);
    (ActivePlayerSession { handle, rx: cmd_rx }, rx, cmd_tx)
}

fn finished(mode: &str, id: &str) -> FinishedMatchInfo {
    FinishedMatchInfo {
        match_id: id.to_string(),
        mode: mode.to_string(),
        black_name: "a".to_string(),
        white_name: "b".to_string(),
        winner_color: None,
        black_stones: 32,
        white_stones: 32,
        reason: "OK".to_string(),
        moves: vec!["D3".to_string()],
        finished_at_sec: 7,
    }
}

#[test]
fn history_keeps_fifty_newest_first() {
    let mut h = MatchHistoryRegistry::new();
    for i in 0..60 {
        h.record_match(finished("FreeMatch", &format!("m{i}")));
    }
    h.record_match(finished("Room_1", "room"));
    let all = h.list_matches();
    assert_eq!(all.len(), 50);
    assert_eq!(all[0].match_id, "m59");
    assert_eq!(all[49].match_id, "m10");
    let few = h.list_matches_limited(3);
    assert_eq!(few.iter().map(|m| m.match_id.clone()).collect::<Vec<_>>(), vec!["m59", "m58", "m57"]);
    assert_eq!(h.list_matches_limited(100).len(), 50);
    for i in 0..52 {
        h.record_tournament(RoomTournamentResult {
            room_id: format!("r{i}"),
            finished_at_sec: 0,
            stats: vec![],
            match_matrix: vec![],
        });
    }
    assert_eq!(h.list_tournaments().len(), 50);
    assert_eq!(h.list_tournaments_limited(1)[0].room_id, "r51");
}

#[test]
fn active_matches_registry() {
    let mut reg = ActiveMatchRegistry::new();
    let a = reg.register("FreeMatch", "A", "B");
    let b = reg.register("vs-Human", "C", "D");
    assert_eq!(a, "match_1");
    assert_eq!(b, "match_2");
    reg.update_move(&a);
    reg.update_move(&a);
    reg.update_move("match_9");
    let l = reg.list();
    assert_eq!(l.len(), 2);
    assert_eq!(l[0].move_count, 2);
    assert_eq!(l[0].black_name, "A");
    assert_eq!(l[1].move_count, 0);
    reg.unregister(&a);
    let l = reg.list();
    assert_eq!(l.len(), 1);
    assert_eq!(l[0].match_id, "match_2");
    assert_eq!(reg.register("x", "y", "z"), "match_3");
}

#[test]
fn test_initial_matchmaking() {
    let mut queue = FreeMatchQueue::new();
    let (s1, _r1, _c1) = mock_session("Alice");
    let (s2, _r2, _c2) = mock_session("Bob");
    assert_eq!(queue.enqueue(s1, 1000, PreferredColor::Random, 10), "free_1");
    assert_eq!(queue.enqueue(s2, 1000, PreferredColor::Random, 5), "free_2");
    assert_eq!(queue.infos().len(), 2);
}

#[test]
fn test_cooldown_blocking_same_pair() {
    let mut queue = FreeMatchQueue::new();
    let info = PairingInfo {
        p1_name: "Alice".to_string(),
        p2_name: "Bob".to_string(),
        assigned_time_ms: 1000,
        max_cooldown_sec: 10,
        s1_cooldown_sec: 10,
        s2_cooldown_sec: 10,
    };
    queue.add_cooldown(&info, 0);
    assert!(queue.in_cooldown("Alice", "Bob", 0), "Alice and Bob should be blocked by cooldown");
    assert!(queue.in_cooldown("Bob", "Alice", 9_999));
    assert!(!queue.in_cooldown("Alice", "Bob", 10_000));
}

#[test]
fn test_different_opponent_immediate_match() {
    let mut queue = FreeMatchQueue::new();
    let info = PairingInfo {
        p1_name: "Alice".to_string(),
        p2_name: "Bob".to_string(),
        assigned_time_ms: 1000,
        max_cooldown_sec: 10,
        s1_cooldown_sec: 10,
        s2_cooldown_sec: 10,
    };
    queue.add_cooldown(&info, 0);
    let (s1, _r1, _c1) = mock_session("Alice");
    let (s2, _r2, _c2) = mock_session("Bob");
    let (s3, _r3, _c3) = mock_session("Charlie");
    queue.enqueue(s1, 1000, PreferredColor::Random, 10);
    queue.enqueue(s2, 1000, PreferredColor::Random, 10);
    queue.enqueue(s3, 1000, PreferredColor::Random, 10);
    assert!(!queue.in_cooldown("Alice", "Charlie", 1), "Alice and Charlie should NOT be in cooldown and should match immediately");
    assert_eq!(queue.find_pair(1), Some((0, 2)));
    let p = queue.take_pairing(1, true).unwrap();
    assert_eq!(p.info.p1_name, "Alice");
    assert_eq!(p.info.p2_name, "Charlie");
    assert_eq!(p.black.handle.player_name, "Alice");
    assert_eq!(queue.infos().len(), 1);
    // Alice-Bob may meet once the cooldown ran out.
    assert!(queue.take_pairing(5_000, false).is_none());
}

#[test]
fn test_max_cooldown_sec_calculation() {
    let mut queue = FreeMatchQueue::new();
    let (s1, _r1, _c1) = mock_session("A");
    let (s2, _r2, _c2) = mock_session("B");
    queue.enqueue(s1, 3000, PreferredColor::White, 10);
    queue.enqueue(s2, 2000, PreferredColor::Random, 3);
    let p = queue.take_pairing(0, true).unwrap();
    assert_eq!(p.info.max_cooldown_sec, 10, "max_cooldown_sec should be the maximum of both clients' cooldown_sec");
    assert_eq!(p.info.assigned_time_ms, 2000);
    assert_eq!(p.info.s1_cooldown_sec, 10);
    assert_eq!(p.info.s2_cooldown_sec, 3);
    // A asked for White against Random: B takes Black.
    assert_eq!(p.black.handle.player_name, "B");
}

#[test]
fn test_lazy_deletion_on_closed_session() {
    let mut queue = FreeMatchQueue::new();
    let (s1, rx1, _c1) = mock_session("Alice");
    let (s2, _rx2, _c2) = mock_session("Bob");
    queue.enqueue(s1, 1000, PreferredColor::Random, 10);
    queue.enqueue(s2, 1000, PreferredColor::Random, 10);
    drop(rx1);
    let waiting = queue.list_waiting();
    assert_eq!(waiting.len(), 1, "Alice should be lazily removed from ready_list");
    assert_eq!(waiting[0].player_name, "Bob");
    assert_eq!(waiting[0].client_id, "free_2");
}

#[test]
fn freematch_requeue_and_remove() {
    let mut queue = FreeMatchQueue::new();
    let info = PairingInfo {
        p1_name: "A".to_string(),
        p2_name: "B".to_string(),
        assigned_time_ms: 500,
        max_cooldown_sec: 7,
        s1_cooldown_sec: 7,
        s2_cooldown_sec: 2,
    };
    let (sa, _ra, _ca) = mock_session("A");
    let (sb, _rb, _cb) = mock_session("B");
    assert!(queue.requeue_player(Participant::Human(sb), &info));
    assert!(queue.requeue_player(Participant::Human(sa), &info));
    assert!(!queue.requeue_player(Participant::RandomAi { name: "AI".to_string() }, &info));
    let w = queue.infos();
    assert_eq!(w[0].client_id, "free_re_B");
    assert_eq!(w[0].cooldown_sec, 2);
    assert_eq!(w[1].client_id, "free_re_A");
    assert_eq!(w[1].cooldown_sec, 7);
    assert_eq!(w[1].assigned_time_ms, 500);
    queue.add_cooldown(&info, 100);
    queue.remove_by_name("A");
    assert_eq!(queue.infos().len(), 1);
    assert!(!queue.in_cooldown("A", "B", 100));
}

#[test]
fn color_assignment_table() {
    assert!(first_player_is_black(PreferredColor::Black, PreferredColor::White, false));
    assert!(!first_player_is_black(PreferredColor::White, PreferredColor::Black, true));
    assert!(first_player_is_black(PreferredColor::Black, PreferredColor::Black, false));
    assert!(first_player_is_black(PreferredColor::Black, PreferredColor::Random, false));
    assert!(!first_player_is_black(PreferredColor::Random, PreferredColor::Black, true));
    assert!(!first_player_is_black(PreferredColor::White, PreferredColor::White, true));
    assert!(!first_player_is_black(PreferredColor::White, PreferredColor::Random, true));
    assert!(first_player_is_black(PreferredColor::Random, PreferredColor::White, false));
    assert!(first_player_is_black(PreferredColor::Random, PreferredColor::Random, true));
    assert!(!first_player_is_black(PreferredColor::Random, PreferredColor::Random, false));
}

#[test]
fn wait_human_queue() {
    let mut q = WaitHumanQueue::new();
    let (s1, _r1, _c1) = mock_session("C1");
    let (s2, r2, _c2) = mock_session("C2");
    let (s3, _r3, _c3) = mock_session("C3");
    assert_eq!(q.register(s1, 1000), "client_1");
    assert_eq!(q.register(s2, 2000), "client_2");
    assert_eq!(q.register(s3, 3000), "client_3");
    drop(r2);
    let l = q.list();
    assert_eq!(l.len(), 2);
    assert_eq!(l[1].client_id, "client_3");
    let (sess, t) = q.take("client_3").unwrap();
    assert_eq!(sess.handle.player_name, "C3");
    assert_eq!(t, 3000);
    assert!(q.take("client_3").is_none());
    q.remove_by_name("C1");
    assert_eq!(q.list().len(), 0);
}

#[test]
fn room_manager() {
    let mut mgr = RoomManager::new();
    let room = mgr.get_or_create("r1", 2000, 0);
    assert_eq!(room.match_count, 1);
    room.add_ai("random", 0, false);
    room.add_ai("egaroucid", 5, true);
    room.add_ai("egaroucid", -2, false);
    let names: Vec<String> = room.ais.iter().map(|a| a.0.clone()).collect();
    assert_eq!(names, vec!["AI_Random_1", "Egaroucid_L5", "Egaroucid_L-2_NoBook"]);
    assert!(mgr.remove_ai("r1", "Egaroucid_L5"));
    assert!(!mgr.remove_ai("r1", "missing"));
    assert!(!mgr.remove_ai("nope", "AI_Random_1"));
    let (s1, _r1, _c1) = mock_session("P1");
    assert!(mgr.join("r1", s1, 1000));
    let (s2, _r2, _c2) = mock_session("P2");
    assert!(mgr.join("r2", s2, 900));
    assert!(mgr.update_room("r1", Some(3000), Some(0)));
    assert!(!mgr.update_room("zz", None, None));
    assert!(mgr.add_ai_with_book("r2", "random", 1, true));
    let info = mgr.list_info();
    assert_eq!(info.len(), 2);
    assert_eq!(info[0].room_id, "r1");
    assert_eq!(info[0].assigned_time_ms, 3000);
    assert_eq!(info[0].match_count, 1);
    assert_eq!(info[0].client_names, vec!["P1"]);
    assert_eq!(info[0].status, "waiting");
    assert_eq!(info[1].ai_names, vec!["AI_Random_1"]);
    assert_eq!(info[1].match_count, 1);
    assert!(mgr.remove_client_from_room("r1", "P1"));
    assert_eq!(mgr.list_info()[0].current_clients, 0);
    let setup = mgr.start_tournament("r1").unwrap();
    assert_eq!(setup.ais.len(), 2);
    assert_eq!(mgr.list_info().len(), 1);
    mgr.get_or_create("empty", 1, 1);
    assert!(mgr.start_tournament("empty").is_none());
    assert!(mgr.remove_room("empty"));
    assert!(!mgr.remove_room("empty"));
}

#[test]
fn room_new_and_info() {
    let r = Room::new("x".to_string(), 10, 4);
    let i = r.to_info();
    assert_eq!(i.room_id, "x");
    assert_eq!(i.match_count, 4);
    assert_eq!(i.status, "waiting");
}

fn result(b: &str, w: &str, winner: Option<Color>, bs: u32, ws: u32) -> MatchResult {
    MatchResult {
        black_name: b.to_string(),
        white_name: w.to_string(),
        winner_color: winner,
        black_stones: bs,
        white_stones: ws,
        reason: "OK".to_string(),
        moves: vec!["D3".to_string(), "C5".to_string()],
    }
}

#[test]
fn tournament_tally() {
    let names = vec!["A".to_string(), "B".to_string(), "C".to_string(), "A".to_string()];
    let mut t = TournamentTally::new(&names);
    assert_eq!(t.stats.len(), 3);
    t.record_game("A", "B", &result("A", "B", Some(Color::Black), 40, 24), 1);
    t.record_game("A", "C", &result("A", "C", Some(Color::White), 20, 44), 1);
    t.record_game("B", "C", &result("B", "C", None, 32, 32), 1);
    t.record_game("C", "A", &result("A", "C", Some(Color::White), 10, 54), 2);
    let d = &t.details;
    assert_eq!(d[0].result_text, "win");
    assert_eq!(d[1].result_text, "lose");
    assert_eq!(d[2].result_text, "draw");
    assert_eq!((d[3].p1_score, d[3].p2_score), (54, 10));
    assert_eq!(d[3].result_text, "win");
    assert_eq!(d[3].round_index, 2);
    let st = t.standings();
    let summary: Vec<(String, i32, u32, u32)> =
        st.iter().map(|s| (s.player_name.clone(), s.score, s.wins, s.loses)).collect();
    assert_eq!(
        summary,
        vec![
            ("C".to_string(), 2, 2, 0),
            ("A".to_string(), -1, 1, 2),
            ("B".to_string(), -1, 0, 1),
        ]
    );
    assert_eq!(st.iter().map(|s| s.score).sum::<i32>(), 0);
    let res = t.into_result("room".to_string(), 5);
    assert_eq!(res.stats[0].player_name, "C");
    assert_eq!(res.match_matrix.len(), 4);
}

#[test]
fn tournament_slots() {
    let (s1, _r1, _c1) = mock_session("H");
    let ais = vec![("AI_Random_1".to_string(), 0, false), ("Egaroucid_L4".to_string(), 4, true)];
    let p = tournament_participants(vec![s1], ais);
    assert_eq!(p.len(), 3);
    assert_eq!(p[0].name(), "H");
    assert!(matches!(p[1], Participant::RandomAi { .. }));
    assert!(matches!(p[2], Participant::EgaroucidAi { level: 4, use_book: true, .. }));
    assert!(p[1].is_unlimited_time());
    assert!(!p[0].is_unlimited_time());
    let (w, _rw, _cw) = mock_session("Player_Web_1");
    assert!(Participant::Human(w).is_unlimited_time());
}

#[test]
fn match_state_resignation_and_timeout() {
    let mut st = MatchState::new("B".to_string(), "W".to_string(), 50);
    assert_eq!(st.black_remaining_ms, 100);
    assert_eq!(st.time_budget_ms(false), 100);
    assert_eq!(st.time_budget_ms(true), 86_400_000);
    match st.play_turn(Move::Coord { x: 4, y: 3 }, false, 30) {
        TurnOutcome::Continue { mover, announced, remaining_ms, counted } => {
            assert_eq!(mover, Color::Black);
            assert_eq!(announced, Move::Coord { x: 4, y: 3 });
            assert_eq!(remaining_ms, 70);
            assert!(counted);
        }
        TurnOutcome::Finished(_) => panic!("game should go on"),
    }
    assert_eq!(st.turn, Color::White);
    match st.play_turn(Move::Coord { x: 3, y: 3 }, false, 200) {
        TurnOutcome::Finished(res) => {
            assert_eq!(res.winner_color, Some(Color::Black));
            assert_eq!(res.reason, "W_time_out");
            assert_eq!(res.moves, vec!["D3".to_string(), "C3".to_string()]);
            assert_eq!((res.black_stones, res.white_stones), (4, 1));
        }
        TurnOutcome::Continue { .. } => panic!("white ran out of time"),
    }
}

#[test]
fn match_state_invalid_and_giveup() {
    let mut st = MatchState::new("B".to_string(), "W".to_string(), 1000);
    match st.play_turn(Move::Coord { x: 1, y: 1 }, true, 0) {
        TurnOutcome::Finished(res) => {
            assert_eq!(res.winner_color, Some(Color::White));
            assert_eq!(res.reason, "Invalid_move_A1");
        }
        _ => panic!("invalid move loses"),
    }
    let mut st = MatchState::new("B".to_string(), "W".to_string(), 1000);
    match st.play_turn(Move::GiveUp, true, 0) {
        TurnOutcome::Finished(res) => {
            assert_eq!(res.reason, "B_gave_up_or_disconnected");
            assert_eq!(res.winner_color, Some(Color::White));
        }
        _ => panic!("resignation loses"),
    }
}

#[test]
fn match_state_full_random_game() {
    let mut st = MatchState::new("B".to_string(), "W".to_string(), 1000);
    let mut steps = 0;
    while !st.is_over() {
        let m = decide_random_move(&st.board, st.turn);
        match st.play_turn(m, true, 0) {
            TurnOutcome::Continue { .. } => {}
            TurnOutcome::Finished(_) => panic!("legal play never ends early"),
        }
        steps += 1;
        assert!(steps < 200);
    }
    let res = st.final_result();
    assert_eq!(res.reason, "OK");
    let expected = if res.black_stones > res.white_stones {
        Some(Color::Black)
    } else if res.white_stones > res.black_stones {
        Some(Color::White)
    } else {
        None
    };
    assert_eq!(res.winner_color, expected);
    assert_eq!(res.moves.len(), steps);
}

#[test]
fn match_state_pass_when_no_moves() {
    let mut st = MatchState::new("B".to_string(), "W".to_string(), 1000);
    for x in 1..=8 {
        for y in 1..=8 {
            st.board.set((x, y), Color::White);
        }
    }
    st.board.set((1, 1), Color::Empty);
    match st.play_turn(Move::Coord { x: 1, y: 1 }, true, 0) {
        TurnOutcome::Continue { announced, counted, .. } => {
            assert_eq!(announced, Move::Pass);
            assert!(!counted);
        }
        _ => panic!("a side without moves passes"),
    }
    assert_eq!(st.consecutive_passes, 1);
}

#[test]
fn commands_for_players() {
    match end_command_for(Color::White, Some(Color::Black), 40, 24, "OK") {
        ServerCommand::End { result, your_stone_count, opponent_stone_count, reason } => {
            assert_eq!(result, Wl::Lose);
            assert_eq!((your_stone_count, opponent_stone_count), (24, 40));
            assert_eq!(reason, "OK");
        }
        _ => panic!(),
    }
    match end_command_for(Color::Black, None, 32, 32, "x") {
        ServerCommand::End { result, .. } => assert_eq!(result, Wl::Tie),
        _ => panic!(),
    }
    assert_eq!(start_command(Color::White, "A", true, 5).to_string(), "START WHITE A 86400000");
    assert_eq!(start_command(Color::Black, "A", false, 5).to_string(), "START BLACK A 5");
    let rec = finished_record("match_1", "FreeMatch", &result("A", "B", Some(Color::White), 1, 2), 9);
    assert_eq!(rec.winner_color, Some("WHITE".to_string()));
    assert_eq!(rec.match_id, "match_1");
    assert_eq!(rec.finished_at_sec, 9);
}

#[test]
fn ai_match_helpers() {
    let (p, mode) = ai_opponent(&AiType::Random);
    assert_eq!(p.name(), "AI_Random");
    assert_eq!(mode, "vs-AI (Random)");
    let (p, mode) = ai_opponent(&AiType::Egaroucid { level: 7, use_book: false });
    assert_eq!(p.name(), "Egaroucid_L7_NoBook");
    assert_eq!(mode, "vs-AI (Egaroucid)");
    assert_eq!(engine_player_name(12, true), "Egaroucid_L12");
    let r = result("H", "AI", Some(Color::Black), 40, 24);
    let s = ai_match_stat("H".to_string(), false, &r);
    assert_eq!((s.score, s.wins, s.loses), (40, 1, 0));
    let s = ai_match_stat("H".to_string(), true, &r);
    assert_eq!((s.score, s.wins, s.loses), (24, 0, 1));
    let _ = PlayerStat { player_name: String::new(), score: 0, wins: 0, loses: 0 };
}

#[test]
fn request_defaults() {
    let q = MatchQuery { time_ms: None, level: None, use_book: None, color: None, cooldown_sec: None };
    assert_eq!(q.assigned_time(), DEFAULT_TIME_MS);
    assert_eq!(q.assigned_time(), 1000);
    assert_eq!(q.cooldown(), 10);
    assert_eq!(q.engine_level(), 7);
    assert!(q.book());
    assert_eq!(q.preferred_color(), PreferredColor::Random);
    let q = MatchQuery { time_ms: Some(5), level: Some(40), use_book: Some(false), color: Some("White".to_string()), cooldown_sec: Some(0) };
    assert_eq!(q.assigned_time(), 5);
    assert_eq!(q.engine_level(), 20);
    assert!(!q.book());
    assert_eq!(q.preferred_color(), PreferredColor::White);
    assert_eq!(q.cooldown(), 0);
    let c = CreateRoomRequest { room_id: "r".to_string(), time_ms: None, match_count: None };
    assert_eq!((c.time(), c.count()), (60_000, 1));
    let a = AddAiRequest { ai_type: None, level: Some(-4), use_book: None };
    assert_eq!(a.kind(), "egaroucid");
    assert_eq!(a.engine_level(), 0);
    let a = AddAiRequest { ai_type: Some("random".to_string()), level: None, use_book: Some(false) };
    assert_eq!(a.engine_level(), 3);
    assert!(!a.book());
}

#[test]
fn session_send() {
    let (s, mut rx, _c) = mock_session("A");
    assert!(s.handle.send(ServerCommand::Ack { assigned_time_ms: 1 }).is_ok());
    assert!(rx.try_recv().is_ok());
    assert!(!s.is_closed());
    drop(rx);
    assert!(s.handle.is_closed());
    assert_eq!(
        s.handle.send(ServerCommand::Ack { assigned_time_ms: 1 }).unwrap_err(),
        "Failed to send command to session: channel closed"
    );
}

#[test]
fn try_matchmake_pairs_first_two() {
    let mut queue = FreeMatchQueue::new();
    let (s1, _r1, _c1) = mock_session("Alice");
    let (s2, _r2, _c2) = mock_session("Bob");
    queue.enqueue(s1, 3000, PreferredColor::White, 4);
    assert!(queue.try_matchmake(0).is_none());
    queue.enqueue(s2, 2000, PreferredColor::Random, 9);
    let p = queue.try_matchmake(0).expect("two players pair");
    assert_eq!(p.black.handle.player_name, "Bob");
    assert_eq!(p.white.handle.player_name, "Alice");
    assert_eq!(p.info.assigned_time_ms, 2000);
    assert_eq!(p.info.max_cooldown_sec, 9);
    assert!(queue.infos().is_empty());
}

#[test]
fn wait_human_ids_never_repeat() {
    let mut q = WaitHumanQueue::new();
    let (s1, _r1, _c1) = mock_session("Same");
    let (s2, _r2, _c2) = mock_session("Same");
    let id1 = q.register(s1, 1000);
    let id2 = q.register(s2, 2000);
    assert_ne!(id1, id2);
    let (_, t) = q.take(&id1).unwrap();
    assert_eq!(t, 1000);
    let (s3, _r3, _c3) = mock_session("Same");
    let id3 = q.register(s3, 3000);
    assert_eq!(id3, "client_3");
    let ids: Vec<String> = q.list().into_iter().map(|c| c.client_id).collect();
    assert_eq!(ids, vec!["client_2".to_string(), "client_3".to_string()]);
    let (_, t) = q.take(&id2).unwrap();
    assert_eq!(t, 2000);
}

#[test]
fn cooldown_pair_is_skipped_for_another() {
    let mut queue = FreeMatchQueue::new();
    let info = PairingInfo {
        p1_name: "Alice".to_string(),
        p2_name: "Bob".to_string(),
        assigned_time_ms: 1000,
        max_cooldown_sec: 10,
        s1_cooldown_sec: 10,
        s2_cooldown_sec: 10,
    };
    queue.add_cooldown(&info, 1_000);
    let (a, _ra, _ca) = mock_session("Alice");
    let (b, _rb, _cb) = mock_session("Bob");
    let (c, _rc, _cc) = mock_session("Carol");
    queue.enqueue(a, 1000, PreferredColor::Black, 10);
    queue.enqueue(b, 1000, PreferredColor::White, 10);
    queue.enqueue(c, 1000, PreferredColor::White, 10);
    let p = queue.take_pairing(10_999, false).expect("Alice and Carol pair");
    assert_eq!(p.black.handle.player_name, "Alice");
    assert_eq!(p.white.handle.player_name, "Carol");
    assert!(queue.take_pairing(10_999, false).is_none());
}

#[test]
fn round_robin_order() {
    assert_eq!(
        round_robin_schedule(3, 2),
        vec![(1, 0, 1), (1, 0, 2), (1, 1, 2), (2, 0, 1), (2, 0, 2), (2, 1, 2)]
    );
    assert!(round_robin_schedule(1, 5).is_empty());
    assert!(round_robin_schedule(4, 0).is_empty());
    let s = round_robin_schedule(5, 3);
    assert_eq!(s.len(), 30);
    for r in 1..=3u32 {
        for a in 0..5usize {
            for b in (a + 1)..5usize {
                assert_eq!(s.iter().filter(|g| **g == (r, a, b)).count(), 1);
            }
        }
    }
}

#[test]
fn requeue_session_by_connection_state() {
    let mut queue = FreeMatchQueue::new();
    let info = PairingInfo {
        p1_name: "Alice".to_string(),
        p2_name: "Bob".to_string(),
        assigned_time_ms: 1500,
        max_cooldown_sec: 9,
        s1_cooldown_sec: 9,
        s2_cooldown_sec: 4,
    };
    let (a, _ra, _ca) = mock_session("Alice");
    let (b, _rb, _cb) = mock_session("Bob");
    assert!(!queue.requeue_session(a, true, &info));
    assert!(queue.infos().is_empty());
    assert!(queue.requeue_session(b, false, &info));
    let l = queue.infos();
    assert_eq!(l.len(), 1);
    assert_eq!(l[0].client_id, "free_re_Bob");
    assert_eq!(l[0].assigned_time_ms, 1500);
    assert_eq!(l[0].cooldown_sec, 4);
}

#[test]
fn register_at_keeps_the_start_time() {
    let mut reg = ActiveMatchRegistry::new();
    let id = reg.register_at("FreeMatch", "A", "B", 1_700_000_000);
    assert_eq!(id, "match_1");
    let l = reg.list();
    assert_eq!(l[0].started_at_sec, 1_700_000_000);
    assert_eq!(l[0].mode, "FreeMatch");
    assert_eq!(l[0].move_count, 0);
}

#[test]
fn lobby_room_view_and_distinct_ids() {
    let mut mgr = RoomManager::new();
    let (s1, _r1, _c1) = mock_session("Ann");
    assert!(mgr.join("r1", s1, 1500));
    mgr.get_or_create("r1", 9, 9).add_ai("random", 0, false);
    mgr.get_or_create("r2", 2000, 3);
    let info = mgr.list_info();
    assert_eq!(info.len(), 2);
    assert_eq!(info[0].room_id, "r1");
    assert_eq!(info[0].client_names, vec!["Ann".to_string()]);
    assert_eq!(info[0].ai_names, vec!["AI_Random_1".to_string()]);
    assert_eq!(info[0].status, "waiting");
    assert_eq!(info[0].assigned_time_ms, 1500);
    assert_eq!(info[1].room_id, "r2");
    assert!(info[1].client_names.is_empty());
    assert_eq!(info[1].match_count, 3);
}

#[test]
fn seating_and_returned_client() {
    let (a, _ra, _ca) = mock_session("Web");
    let (b, _rb, _cb) = mock_session("Cli");
    let (black, white) = seat_by_colour(Participant::Human(a), Participant::Human(b), true);
    assert_eq!(black.name(), "Cli");
    assert_eq!(white.name(), "Web");
    let (first, second) = unseat(black, white, true);
    assert_eq!(first.name(), "Web");
    assert_eq!(second.name(), "Cli");
    let back = returned_client(first, second, "Cli").expect("the client comes back");
    assert_eq!(back.handle.player_name, "Cli");
    let ai = Participant::RandomAi { name: "AI_Random".to_string() };
    let (c, _rc, _cc) = mock_session("Other");
    assert!(returned_client(ai, Participant::Human(c), "Cli").is_none());
}
