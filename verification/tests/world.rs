use ballballu::game_state::{GameState, PendingMove};
use ballballu::mechanics::{calculate_radius_from_score, calculate_speed_from_score};
use ballballu::objects::{Dot, PlayerSpec};
use ballballu::protocol::{ClientMessage, UserInput};
use ballballu::{GameConstant, GameStatus, WORLD_SIZE};

fn constants() -> GameConstant {
    GameConstant {
        tick_interval_ms: 50,
        collide_size_fraction: 1_100,
        move_speed_base: 150_000,
        dot_radius: 5_000,
    }
}

fn player_at(id: u64, x: i64, y: i64, score: u64) -> PlayerSpec {
    PlayerSpec {
        id,
        name: format!("Player{}", id),
        x,
        y,
        radius: calculate_radius_from_score(score, 10_000),
        score,
        speed: calculate_speed_from_score(score, 150_000),
        sequence_number: 0,
        remaining_distance: 0,
        vx: 0,
        vy: 0,
    }
}

fn world_with_players(players: Vec<PlayerSpec>) -> GameState {
    let n = players.len();
    GameState {
        tick: 0,
        status: GameStatus::Playing,
        players,
        dots: Vec::new(),
        constants: constants(),
        player_inputs: std::iter::repeat_with(|| None).take(n).collect(),
        ready_players: vec![false; n],
        next_dot_id: 1,
    }
}

#[test]
fn eating_a_dot_grows_the_player() {
    // one player at (100, 100) with radius 10, one dot of score 2 at (105, 100)
    let mut gs = world_with_players(vec![player_at(1, 100_000, 100_000, 0)]);
    gs.dots.push(Dot { id: 1, x: 105_000, y: 100_000, radius: 4_000, color: (100, 150, 255), score: 2 });
    gs.next_dot_id = 2;
    gs.step(50);
    assert_eq!(gs.dots.len(), 0);
    assert_eq!(gs.players.len(), 1);
    assert_eq!(gs.players[0].score, 2);
    // radius becomes 10 + sqrt(2) = 11.414 units
    assert_eq!(gs.players[0].radius, 11_414);
    assert_eq!(gs.tick, 1);
}

#[test]
fn larger_player_consumes_smaller() {
    // A has radius 20 (score 100), B has radius 10; fraction 1.1
    let a = player_at(1, 100_000, 100_000, 100);
    assert_eq!(a.radius, 20_000);
    let b = player_at(2, 105_000, 100_000, 0);
    let mut gs = world_with_players(vec![a, b]);
    gs.step(50);
    assert_eq!(gs.players.len(), 1);
    assert_eq!(gs.players[0].id, 1);
    assert_eq!(gs.players[0].score, 100);
}

#[test]
fn consumption_transfers_exact_score() {
    let a = player_at(1, 100_000, 100_000, 100);
    let b = player_at(2, 105_000, 100_000, 2);
    let mut gs = world_with_players(vec![a, b]);
    gs.step(50);
    assert_eq!(gs.players.len(), 1);
    assert_eq!(gs.players[0].id, 1);
    assert_eq!(gs.players[0].score, 102);
    assert_eq!(gs.players[0].radius, calculate_radius_from_score(102, 10_000));
    assert_eq!(gs.players[0].speed, calculate_speed_from_score(102, 150_000));
}

#[test]
fn stalemate_removes_neither() {
    // equal radii overlap: neither exceeds the other by the fraction
    let a = player_at(1, 100_000, 100_000, 0);
    let b = player_at(2, 105_000, 100_000, 0);
    let mut gs = world_with_players(vec![a, b]);
    gs.step(50);
    assert_eq!(gs.players.len(), 2);
}

#[test]
fn discrete_move_travels_exactly_the_commanded_distance() {
    // Move{dx: 1, dy: 0, distance: 50} at speed 150 and dt = 0.05 s
    let mut gs = world_with_players(vec![player_at(1, 100_000, 100_000, 0)]);
    gs.handle_message(1, ClientMessage::Move { dx: 1_000, dy: 0, distance: 50_000 });
    gs.apply_pending_moves();
    for _ in 0..7 {
        gs.step(50);
    }
    assert_eq!(gs.players[0].x, 150_000);
    assert_eq!(gs.players[0].y, 100_000);
    assert_eq!(gs.players[0].remaining_distance, 0);
    assert_eq!(gs.players[0].vx, 0);
    assert_eq!(gs.players[0].vy, 0);
}

#[test]
fn stale_move_is_dropped_while_still_moving() {
    let mut gs = world_with_players(vec![player_at(1, 100_000, 100_000, 0)]);
    gs.handle_message(1, ClientMessage::Move { dx: 1_000, dy: 0, distance: 50_000 });
    gs.apply_pending_moves();
    gs.step(50);
    // a second command while 42.5 units remain is silently dropped
    gs.handle_message(1, ClientMessage::Move { dx: 0, dy: 1_000, distance: 900_000 });
    gs.apply_pending_moves();
    assert_eq!(gs.players[0].vy, 0);
    assert_eq!(gs.players[0].remaining_distance, 42_500);
}

#[test]
fn negative_distance_is_clamped_to_zero() {
    let mut gs = world_with_players(vec![player_at(1, 100_000, 100_000, 0)]);
    gs.handle_message(1, ClientMessage::Move { dx: 1_000, dy: 0, distance: -500 });
    gs.apply_pending_moves();
    gs.step(50);
    assert_eq!(gs.players[0].x, 100_000);
    assert_eq!(gs.players[0].remaining_distance, 0);
}

#[test]
fn deprecated_input_message_does_not_move() {
    let mut gs = world_with_players(vec![player_at(1, 100_000, 100_000, 0)]);
    gs.handle_message(
        1,
        ClientMessage::Input { input: UserInput { dx: 1_000, dy: 0, sequence_number: 9 } },
    );
    gs.apply_pending_moves();
    gs.step(50);
    assert_eq!(gs.players[0].x, 100_000);
    assert_eq!(gs.players[0].y, 100_000);
}

#[test]
fn ready_transitions_only_when_everyone_is_ready() {
    let mut gs = world_with_players(vec![
        player_at(1, 100_000, 100_000, 0),
        player_at(2, 400_000, 400_000, 0),
    ]);
    gs.status = GameStatus::WaitingToStart;
    gs.handle_message(1, ClientMessage::Ready);
    assert_eq!(gs.status, GameStatus::WaitingToStart);
    gs.handle_message(2, ClientMessage::Ready);
    assert_eq!(gs.status, GameStatus::Playing);
}

#[test]
fn ready_with_no_players_never_starts() {
    let mut gs = world_with_players(vec![]);
    gs.status = GameStatus::WaitingToStart;
    gs.handle_message(7, ClientMessage::Ready);
    assert_eq!(gs.status, GameStatus::WaitingToStart);
}

#[test]
fn join_renames_the_player() {
    let mut gs = world_with_players(vec![player_at(1, 100_000, 100_000, 0)]);
    gs.handle_message(1, ClientMessage::Join { name: String::from("ball") });
    assert_eq!(gs.players[0].name, "ball");
}

#[test]
fn quit_changes_no_state() {
    let mut gs = world_with_players(vec![player_at(1, 100_000, 100_000, 0)]);
    gs.handle_message(1, ClientMessage::Quit);
    assert_eq!(gs.players.len(), 1);
    assert_eq!(gs.players[0].name, "Player1");
}

#[test]
fn add_player_gives_defaults_and_fresh_name() {
    let mut gs = world_with_players(vec![]);
    gs.add_player(42);
    assert_eq!(gs.players.len(), 1);
    let p = &gs.players[0];
    assert_eq!(p.id, 42);
    assert_eq!(p.name, "Player42");
    assert_eq!(p.score, 0);
    assert_eq!(p.radius, 10_000);
    assert_eq!(p.speed, 150_000);
    assert!(p.x >= 10_000 && p.x <= WORLD_SIZE - 10_000);
    assert!(p.y >= 10_000 && p.y <= WORLD_SIZE - 10_000);
}

#[test]
fn largest_id_renders_fully_in_default_name() {
    let mut gs = world_with_players(vec![]);
    gs.add_player(u64::MAX);
    assert_eq!(gs.players[0].name, "Player18446744073709551615");
}

#[test]
fn remove_player_is_idempotent() {
    let mut gs = world_with_players(vec![player_at(1, 100_000, 100_000, 0)]);
    gs.remove_player(1);
    assert_eq!(gs.players.len(), 0);
    gs.remove_player(1);
    assert_eq!(gs.players.len(), 0);
}

#[test]
fn respawn_resets_score_and_motion_in_place() {
    let mut gs = world_with_players(vec![player_at(1, 100_000, 100_000, 25)]);
    gs.players[0].remaining_distance = 4_000;
    gs.players[0].vx = 1_000;
    gs.player_inputs[0] = Some(PendingMove { dx: 1_000, dy: 0, distance: 9_000 });
    gs.respawn_player(1);
    let p = &gs.players[0];
    assert_eq!(p.id, 1);
    assert_eq!(p.name, "Player1");
    assert_eq!(p.score, 0);
    assert_eq!(p.radius, 10_000);
    assert_eq!(p.remaining_distance, 0);
    assert_eq!(p.vx, 0);
    assert!(gs.player_inputs[0].is_none());
}

#[test]
fn new_world_spawns_bounded_dot_population() {
    let gs = GameState::new(constants());
    assert_eq!(gs.dots.len(), 150);
    assert_eq!(gs.players.len(), 0);
    assert_eq!(gs.status, GameStatus::WaitingToStart);
    assert_eq!(gs.tick, 0);
    let mut seen = std::collections::HashSet::new();
    for d in &gs.dots {
        assert!(seen.insert(d.id));
        assert!(d.x >= d.radius && d.x < WORLD_SIZE - d.radius);
        assert!(d.y >= d.radius && d.y < WORLD_SIZE - d.radius);
        match d.score {
            2 => assert_eq!(d.radius, 4_000),
            5 => assert_eq!(d.radius, 6_000),
            10 => assert_eq!(d.radius, 8_000),
            other => panic!("unexpected dot score {}", other),
        }
    }
}

#[test]
fn spawned_replacement_dot_overlaps_nothing() {
    let mut gs = GameState::new(constants());
    let before = gs.dots.len();
    if gs.spawn_new_dot() {
        assert_eq!(gs.dots.len(), before + 1);
        let d = gs.dots.last().unwrap();
        for other in &gs.dots[..before] {
            let dx = (d.x - other.x) as f64;
            let dy = (d.y - other.y) as f64;
            let dist = (dx * dx + dy * dy).sqrt();
            assert!(dist >= (d.radius + other.radius) as f64);
        }
    } else {
        assert_eq!(gs.dots.len(), before);
    }
}

#[test]
fn spawning_into_an_empty_world_always_succeeds() {
    let mut gs = world_with_players(vec![]);
    assert!(gs.spawn_new_dot());
    assert_eq!(gs.dots.len(), 1);
    let d = &gs.dots[0];
    assert!(d.x >= d.radius && d.x <= WORLD_SIZE - d.radius);
    assert!(d.y >= d.radius && d.y <= WORLD_SIZE - d.radius);
}

#[test]
fn snapshot_copies_the_world() {
    let mut gs = world_with_players(vec![player_at(1, 100_000, 100_000, 3)]);
    gs.dots.push(Dot { id: 9, x: 500_000, y: 500_000, radius: 6_000, color: (255, 255, 100), score: 5 });
    gs.next_dot_id = 10;
    gs.tick = 77;
    let snap = gs.to_snapshot();
    assert_eq!(snap.tick, 77);
    assert_eq!(snap.status, GameStatus::Playing);
    assert_eq!(snap.players.len(), 1);
    assert_eq!(snap.players[0].id, 1);
    assert_eq!(snap.players[0].score, 3);
    assert_eq!(snap.dots.len(), 1);
    assert_eq!(snap.dots[0].id, 9);
    assert_eq!(snap.constants.tick_interval_ms, 50);
}

#[test]
fn growth_from_a_dot_enables_consumption_in_the_same_tick() {
    // B is barely too large for A to consume, until A eats a dot this tick
    let a = player_at(1, 100_000, 100_000, 99);
    let b = player_at(2, 110_000, 100_000, 70);
    // A radius: 10 + sqrt(99) = 19.949; B radius: 10 + sqrt(70) = 18.366
    // 19.949 < 18.366 * 1.1 = 20.203: no consumption without growth
    let mut gs = world_with_players(vec![a, b]);
    gs.dots.push(Dot { id: 1, x: 95_000, y: 100_000, radius: 8_000, color: (255, 100, 100), score: 10 });
    gs.next_dot_id = 2;
    gs.step(50);
    // A ate the dot: score 109, radius 10 + sqrt(109) = 20.440 > 20.203
    assert_eq!(gs.players.len(), 1);
    assert_eq!(gs.players[0].id, 1);
    assert_eq!(gs.players[0].score, 179);
}
