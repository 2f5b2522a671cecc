use tron_core::events::{Event, EventQueue};
use tron_core::game::GameStatus;
use tron_core::manager::{GameManager, LeaderboardEntry, PlayerSession};

fn fresh() -> GameManager {
    GameManager::new(Vec::new(), Vec::new())
}

fn entry(name: &str, points: u32) -> LeaderboardEntry {
    LeaderboardEntry {
        name: name.to_string(),
        wins: 0,
        total_points: points,
        games_played: 1,
        highest_level: 1,
    }
}

#[test]
fn join_single_player_waits() {
    let mut m = fresh();
    let msg = m.join("a".to_string()).unwrap();
    assert_eq!(msg, "Joined! Waiting for opponents... (1 players in queue)");
    assert_eq!(m.waiting_players.len(), 1);
    assert_eq!(m.active_games.len(), 0);
}

#[test]
fn join_two_players_starts_a_match() {
    let mut m = fresh();
    m.join("a".to_string()).unwrap();
    let msg = m.join("b".to_string()).unwrap();
    assert_eq!(msg, "Joined! Waiting for opponents... (0 players in queue)");
    assert_eq!(m.active_games.len(), 1);
    assert!(m.waiting_players.is_empty());
    let g = &m.active_games[0];
    assert_eq!(g.status, GameStatus::Running);
    assert_eq!(g.players.len(), 2);
    assert_eq!(g.players[0].name, "a");
    assert_eq!(g.players[1].name, "b");
    assert_eq!(g.course_level, 1);
    // both sessions are bound, in drain order
    for (idx, name) in ["a", "b"].iter().enumerate() {
        let s = m
            .player_sessions
            .iter()
            .find(|(n, _)| n == name)
            .map(|(_, s)| *s)
            .unwrap();
        assert_eq!(s.game_id, Some(g.id));
        assert_eq!(s.player_index, Some(idx));
    }
    // a start announcement went out
    let events = m.events.drain();
    assert!(events
        .iter()
        .any(|e| matches!(e, Event::GameStarted(id) if *id == m.active_games[0].id)));
}

#[test]
fn join_while_in_live_match_is_a_conflict() {
    let mut m = fresh();
    m.join("a".to_string()).unwrap();
    m.join("b".to_string()).unwrap();
    let err = m.join("a".to_string()).unwrap_err();
    assert_eq!(err, "Player 'a' is already in an active game.");
}

fn run_match_until_b_crashes(m: &mut GameManager) {
    // b turns left (facing left, it now heads down) and runs into the
    // bottom border after three ticks; a keeps going and survives
    m.move_player("b", tron_core::game::SteerAction::Left).unwrap();
    for _ in 0..3 {
        m.tick_all();
    }
}

#[test]
fn settlement_updates_leaderboard_archive_and_levels() {
    let mut m = fresh();
    m.join("a".to_string()).unwrap();
    m.join("b".to_string()).unwrap();
    run_match_until_b_crashes(&mut m);
    assert!(m.active_games.is_empty());
    assert_eq!(m.finished_games.len(), 1);
    assert_eq!(m.finished_games[0].winner, Some(0));

    let lb = m.get_leaderboard();
    assert_eq!(lb.len(), 2);
    assert_eq!(lb[0].name, "a");
    assert_eq!(lb[0].wins, 1);
    // winner at tick 3 with distance 3: 100 + 3 + min(200, 1000 / 3) = 303
    assert_eq!(lb[0].total_points, 303);
    assert_eq!(lb[0].games_played, 1);
    assert_eq!(lb[0].highest_level, 2);
    assert_eq!(lb[1].name, "b");
    assert_eq!(lb[1].wins, 0);
    assert_eq!(lb[1].total_points, 0);
    assert_eq!(lb[1].games_played, 1);

    let events = m.events.drain();
    assert!(events.iter().any(|e| matches!(e, Event::GameFinished(_))));
}

#[test]
fn rejoin_after_finish_preserves_progression() {
    let mut m = fresh();
    m.join("a".to_string()).unwrap();
    m.join("b".to_string()).unwrap();
    run_match_until_b_crashes(&mut m);
    // the match is settled: both may join again, levels carried over
    m.join("a".to_string()).unwrap();
    m.join("b".to_string()).unwrap();
    let level_of = |m: &GameManager, name: &str| {
        m.player_sessions
            .iter()
            .find(|(n, _)| n == name)
            .map(|(_, s)| s.current_level)
            .unwrap()
    };
    assert_eq!(level_of(&m, "a"), 2);
    assert_eq!(level_of(&m, "b"), 1);
    // the new match plays at the minimum level of the batch
    assert_eq!(m.active_games.len(), 1);
    assert_eq!(m.active_games[0].course_level, 1);
}

#[test]
fn matchmaking_uses_minimum_level_and_fifo_order() {
    let mut m = fresh();
    let none = PlayerSession { game_id: None, player_index: None, current_level: 1 };
    let two = PlayerSession { game_id: None, player_index: None, current_level: 2 };
    m.player_sessions.push(("a".to_string(), none));
    m.player_sessions.push(("b".to_string(), two));
    m.waiting_players.push("a".to_string());
    m.waiting_players.push("b".to_string());
    m.join("c".to_string()).unwrap();
    // levels {1, 2, 1}: the level-1 course (capacity 4) takes all three
    assert_eq!(m.active_games.len(), 1);
    let g = &m.active_games[0];
    assert_eq!(g.course_level, 1);
    assert_eq!(g.course_name, "Open Arena");
    assert_eq!(g.players.len(), 3);
    assert_eq!(g.players[0].name, "a");
    assert_eq!(g.players[1].name, "b");
    assert_eq!(g.players[2].name, "c");
    assert!(m.waiting_players.is_empty());
}

#[test]
fn matchmaking_respects_course_capacity() {
    let mut m = fresh();
    let lvl1 = PlayerSession { game_id: None, player_index: None, current_level: 1 };
    for name in ["a", "b", "c", "d"] {
        m.player_sessions.push((name.to_string(), lvl1));
        m.waiting_players.push(name.to_string());
    }
    m.join("e".to_string()).unwrap();
    // a level-1 course seats four: the fifth name stays queued
    assert_eq!(m.active_games.len(), 1);
    assert_eq!(m.active_games[0].players.len(), 4);
    assert_eq!(m.waiting_players.len(), 1);
    assert_eq!(m.waiting_players[0], "e");
}

#[test]
fn leaderboard_sorts_by_points_with_stable_ties() {
    let mut m = fresh();
    m.leaderboard.push(entry("n1", 10));
    m.leaderboard.push(entry("n2", 30));
    m.leaderboard.push(entry("n3", 30));
    m.leaderboard.push(entry("n4", 5));
    let lb = m.get_leaderboard();
    let names: Vec<&str> = lb.iter().map(|e| e.name.as_str()).collect();
    assert_eq!(names, ["n2", "n3", "n1", "n4"]);
}

#[test]
fn leaderboard_truncates_to_top_ten() {
    let mut m = fresh();
    for i in 0..12u32 {
        m.leaderboard.push(entry(&format!("p{}", i), i));
    }
    let lb = m.get_leaderboard();
    assert_eq!(lb.len(), 10);
    assert_eq!(lb[0].total_points, 11);
    assert_eq!(lb[9].total_points, 2);
}

#[test]
fn persisted_state_round_trips() {
    let mut m = fresh();
    m.join("a".to_string()).unwrap();
    m.join("b".to_string()).unwrap();
    run_match_until_b_crashes(&mut m);

    let saved_lb = m.get_leaderboard();
    let saved_fin = m.get_finished_games().clone();
    let m2 = GameManager::new(saved_lb.clone(), saved_fin.clone());

    let lb2 = m2.get_leaderboard();
    assert_eq!(lb2.len(), saved_lb.len());
    for (x, y) in lb2.iter().zip(saved_lb.iter()) {
        assert_eq!(x.name, y.name);
        assert_eq!(x.wins, y.wins);
        assert_eq!(x.total_points, y.total_points);
        assert_eq!(x.games_played, y.games_played);
        assert_eq!(x.highest_level, y.highest_level);
    }
    assert_eq!(m2.finished_games.len(), saved_fin.len());
    for (x, y) in m2.finished_games.iter().zip(saved_fin.iter()) {
        assert_eq!(x.id, y.id);
        assert_eq!(x.winner, y.winner);
        assert_eq!(x.tick, y.tick);
    }
}

#[test]
fn move_player_reports_missing_state() {
    let mut m = fresh();
    let err = m
        .move_player("ghost", tron_core::game::SteerAction::Left)
        .unwrap_err();
    assert_eq!(err, "Player not found. Use join_game first.");
    m.join("a".to_string()).unwrap();
    let err = m
        .move_player("a", tron_core::game::SteerAction::Left)
        .unwrap_err();
    assert_eq!(err, "Not in a game yet. Waiting for opponents.");
}

#[test]
fn move_player_queues_steering() {
    let mut m = fresh();
    m.join("a".to_string()).unwrap();
    m.join("b".to_string()).unwrap();
    let msg = m
        .move_player("a", tron_core::game::SteerAction::Right)
        .unwrap();
    assert_eq!(msg, "Steering set to right. It is applied on the next tick.");
    assert_eq!(
        m.active_games[0].players[0].pending_action,
        Some(tron_core::game::SteerAction::Right)
    );
}

#[test]
fn game_status_reports_each_phase() {
    let mut m = fresh();
    assert_eq!(
        m.game_status("ghost").unwrap_err(),
        "Player not found. Use join_game first."
    );
    m.join("a".to_string()).unwrap();
    assert_eq!(
        m.game_status("a").unwrap(),
        "Status: WAITING for game to start. 1 players in queue."
    );
    m.join("b".to_string()).unwrap();
    let s = m.game_status("a").unwrap();
    assert!(s.starts_with("Status: Running"), "{}", s);
    assert!(s.contains("Course: Open Arena (Level 1)"), "{}", s);
    assert!(s.contains("You: a at (3, 3) heading EAST"), "{}", s);
    run_match_until_b_crashes(&mut m);
    let s = m.game_status("b").unwrap();
    assert!(s.starts_with("Status: FINISHED"), "{}", s);
    assert!(s.contains("Winner: a"), "{}", s);
    assert!(s.contains("Your score: 0"), "{}", s);
}

#[test]
fn event_queue_drops_oldest_on_overflow() {
    let mut q = EventQueue::new(2);
    q.publish(Event::GameStarted(1));
    q.publish(Event::GameStarted(2));
    q.publish(Event::GameStarted(3));
    let items = q.drain();
    assert_eq!(items.len(), 2);
    assert!(matches!(items[0], Event::GameStarted(2)));
    assert!(matches!(items[1], Event::GameStarted(3)));
    assert!(q.drain().is_empty());
}
