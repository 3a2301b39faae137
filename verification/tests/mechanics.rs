use ballballu::mechanics::{
    add_scores, calculate_radius_from_score, calculate_speed_from_score, cells_collisions_check,
    consume_calculation, dot_collision_check, isqrt, isqrt_ceil, update_position,
};
use ballballu::objects::{Dot, PlayerSpec};

fn player_at(id: u64, x: i64, y: i64, score: u64, base_speed: i64) -> PlayerSpec {
    PlayerSpec {
        id,
        name: format!("p{}", id),
        x,
        y,
        radius: calculate_radius_from_score(score, 10_000),
        score,
        speed: calculate_speed_from_score(score, base_speed),
        sequence_number: 0,
        remaining_distance: 0,
        vx: 0,
        vy: 0,
    }
}

#[test]
fn isqrt_exact_values() {
    assert_eq!(isqrt(0), 0);
    assert_eq!(isqrt(1), 1);
    assert_eq!(isqrt(2), 1);
    assert_eq!(isqrt(3), 1);
    assert_eq!(isqrt(4), 2);
    assert_eq!(isqrt(2_000_000), 1414);
    assert_eq!(isqrt(u64::MAX as u128 * u64::MAX as u128), u64::MAX);
}

#[test]
fn isqrt_ceil_exact_values() {
    assert_eq!(isqrt_ceil(0), 0);
    assert_eq!(isqrt_ceil(1), 1);
    assert_eq!(isqrt_ceil(2), 2);
    assert_eq!(isqrt_ceil(4), 2);
    assert_eq!(isqrt_ceil(1_000_000), 1000);
    assert_eq!(isqrt_ceil(1_000_001), 1001);
}

#[test]
fn speed_formula_values() {
    // at score 0 the speed is the base speed
    assert_eq!(calculate_speed_from_score(0, 150_000), 150_000);
    // base / (1 + 200 * 0.005) = base / 2
    assert_eq!(calculate_speed_from_score(200, 150_000), 75_000);
    // base / (1 + 1000 * 0.005) = base / 6
    assert_eq!(calculate_speed_from_score(1000, 150_000), 25_000);
}

#[test]
fn radius_formula_values() {
    // base + sqrt(score), in milli-units
    assert_eq!(calculate_radius_from_score(0, 10_000), 10_000);
    assert_eq!(calculate_radius_from_score(4, 10_000), 12_000);
    // sqrt(2) = 1.414...
    assert_eq!(calculate_radius_from_score(2, 10_000), 11_414);
}

#[test]
fn overlap_is_strict() {
    let a = player_at(1, 0, 0, 0, 150_000);
    let mut b = player_at(2, 20_000, 0, 0, 150_000);
    // centers exactly radius-sum apart: a tie is not an overlap
    assert!(!cells_collisions_check(&a, &b));
    b.x = 19_999;
    assert!(cells_collisions_check(&a, &b));
}

#[test]
fn dot_overlap_matches_radii() {
    let p = player_at(1, 100_000, 100_000, 0, 150_000);
    let dot = Dot { id: 1, x: 105_000, y: 100_000, radius: 4_000, color: (100, 150, 255), score: 2 };
    assert!(dot_collision_check(&p, &dot));
    let far = Dot { id: 2, x: 114_000, y: 100_000, radius: 4_000, color: (100, 150, 255), score: 2 };
    assert!(!dot_collision_check(&p, &far));
}

#[test]
fn update_position_moves_and_consumes_distance() {
    let mut p = player_at(1, 100_000, 100_000, 0, 150_000);
    p.vx = 150_000;
    p.vy = 0;
    p.remaining_distance = 50_000;
    // 150 units/s for 50 ms is 7.5 units
    update_position(&mut p, 150_000, 50);
    assert_eq!(p.x, 107_500);
    assert_eq!(p.y, 100_000);
    assert_eq!(p.remaining_distance, 42_500);
    assert_eq!(p.vx, 150_000);
}

#[test]
fn update_position_stops_exactly_at_zero() {
    let mut p = player_at(1, 100_000, 100_000, 0, 150_000);
    p.vx = 150_000;
    p.remaining_distance = 5_000;
    update_position(&mut p, 150_000, 50);
    assert_eq!(p.x, 105_000);
    assert_eq!(p.remaining_distance, 0);
    assert_eq!(p.vx, 0);
    assert_eq!(p.vy, 0);
}

#[test]
fn update_position_clamps_to_world() {
    let mut p = player_at(1, 5_000, 2_100_000, 0, 150_000);
    // out of bounds on both axes; no movement pending
    update_position(&mut p, 150_000, 50);
    assert_eq!(p.x, 10_000);
    assert_eq!(p.y, 1_990_000);
}

#[test]
fn update_position_never_travels_past_budget() {
    let mut p = player_at(1, 100_000, 100_000, 0, 150_000);
    p.vx = 90_000;
    p.vy = 120_000;
    p.remaining_distance = 1_000_000;
    update_position(&mut p, 150_000, 50);
    let dx = (p.x - 100_000) as f64;
    let dy = (p.y - 100_000) as f64;
    let travelled = (dx * dx + dy * dy).sqrt();
    assert!(travelled <= 7_500.0 + 1e-9);
    assert_eq!(p.remaining_distance, 1_000_000 - 7_500);
}

#[test]
fn add_scores_saturates() {
    assert_eq!(add_scores(3, 4), 7);
    assert_eq!(add_scores(u64::MAX - 1, 5), u64::MAX);
    assert_eq!(add_scores(u64::MAX, u64::MAX), u64::MAX);
}

#[test]
fn consume_calculation_transfers_score() {
    let mut big = player_at(1, 0, 0, 10, 150_000);
    let small = player_at(2, 0, 0, 7, 150_000);
    consume_calculation(&mut big, &small, 10_000);
    assert_eq!(big.score, 17);
    // 10 + sqrt(17) = 14.123...
    assert_eq!(big.radius, 14_123);
}
