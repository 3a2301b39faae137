//! Pure simulation math: integer square roots, circle overlap tests, and the
//! score-derived speed and radius formulas, all in exact fixed-point
//! arithmetic over milli-units.

use vstd::prelude::*;
use vstd::arithmetic::div_mod::{lemma_fundamental_div_mod, lemma_div_is_ordered, lemma_div_pos_is_pos, lemma_div_multiples_vanish};
use crate::{SCALE, WORLD_SIZE, BASE_RADIUS, SPEED_LIMIT, DIST_LIMIT, RADIUS_LIMIT, COORD_LIMIT, DT_LIMIT};
use crate::objects::{PlayerSpec, Dot};

verus! {

/// Mathematical floor of the square root of `n`.
pub open spec fn sqrt_floor(n: nat) -> nat
    decreases n,
{
    if n == 0 {
        0
    } else {
        let r = sqrt_floor((n - 1) as nat);
        if (r + 1) * (r + 1) <= n {
            r + 1
        } else {
            r
        }
    }
}

/// Mathematical ceiling of the square root of `n`.
pub open spec fn sqrt_ceil(n: nat) -> nat {
    if sqrt_floor(n) * sqrt_floor(n) == n {
        sqrt_floor(n)
    } else {
        sqrt_floor(n) + 1
    }
}

/// `sqrt_floor(n)` is the unique `r` with `r * r <= n < (r + 1) * (r + 1)`.
pub proof fn lemma_sqrt_floor_bounds(n: nat)
    ensures
        sqrt_floor(n) * sqrt_floor(n) <= n,
        n < (sqrt_floor(n) + 1) * (sqrt_floor(n) + 1),
    decreases n,
{
    if n > 0 {
        lemma_sqrt_floor_bounds((n - 1) as nat);
        let r = sqrt_floor((n - 1) as nat);
        if (r + 1) * (r + 1) <= n {
            assert(n < (r + 2) * (r + 2)) by (nonlinear_arith)
                requires
                    n <= (r + 1) * (r + 1),
            ;
        }
    } else {
        assert((sqrt_floor(n) + 1) * (sqrt_floor(n) + 1) == 1) by (nonlinear_arith)
            requires
                sqrt_floor(n) == 0,
        ;
    }
}

/// Any `r` sandwiched between consecutive squares around `n` is `sqrt_floor(n)`.
pub proof fn lemma_sqrt_floor_unique(n: nat, r: nat)
    requires
        r * r <= n,
        n < (r + 1) * (r + 1),
    ensures
        r == sqrt_floor(n),
{
    let s = sqrt_floor(n);
    lemma_sqrt_floor_bounds(n);
    if r < s {
        assert((r + 1) * (r + 1) <= s * s) by (nonlinear_arith)
            requires
                r + 1 <= s,
        ;
    }
    if s < r {
        assert((s + 1) * (s + 1) <= r * r) by (nonlinear_arith)
            requires
                s + 1 <= r,
        ;
    }
}

/// The ceiling square root is at least as large as the true root:
/// `sqrt_ceil(n) * sqrt_ceil(n) >= n`, and it exceeds the floor by at most one.
pub proof fn lemma_sqrt_ceil_bounds(n: nat)
    ensures
        n <= sqrt_ceil(n) * sqrt_ceil(n),
        sqrt_floor(n) <= sqrt_ceil(n) <= sqrt_floor(n) + 1,
        n > 0 ==> sqrt_ceil(n) > 0,
{
    lemma_sqrt_floor_bounds(n);
}

/// Floor square root, computed by binary search over `u64` candidates.
pub fn isqrt(n: u128) -> (r: u64)
    ensures
        r == sqrt_floor(n as nat),
{
    let mut lo: u128 = 0;
    let mut hi: u128 = u64::MAX as u128;
    proof {
        assert((u64::MAX as int + 1) * (u64::MAX as int + 1) > u128::MAX as int) by (nonlinear_arith);
    }
    while lo < hi
        invariant
            lo <= hi <= u64::MAX as u128,
            lo * lo <= n,
            n < (hi + 1) * (hi + 1),
        decreases hi - lo,
    {
        let mid: u128 = lo + (hi - lo + 1) / 2;
        proof {
            assert((u64::MAX as int) * (u64::MAX as int) <= u128::MAX as int) by (nonlinear_arith);
            assert(mid * mid <= u128::MAX) by (nonlinear_arith)
                requires
                    mid <= u64::MAX as u128,
                    (u64::MAX as int) * (u64::MAX as int) <= u128::MAX as int,
            ;
        }
        if mid * mid <= n {
            lo = mid;
        } else {
            hi = mid - 1;
        }
    }
    proof {
        lemma_sqrt_floor_unique(n as nat, lo as nat);
    }
    lo as u64
}

/// Ceiling square root for arguments that fit a `u64`.
pub fn isqrt_ceil(n: u128) -> (r: u64)
    requires
        n <= u64::MAX as u128,
    ensures
        r == sqrt_ceil(n as nat),
{
    let r = isqrt(n);
    proof {
        lemma_sqrt_floor_bounds(n as nat);
    }
    if (r as u128) * (r as u128) == n {
        r
    } else {
        proof {
            assert(r < u64::MAX) by (nonlinear_arith)
                requires
                    (r as int) * (r as int) < u64::MAX as int,
            ;
        }
        r + 1
    }
}

/// Squaring is monotone on magnitudes.
pub proof fn lemma_sq_le(a: int, b: int)
    requires
        -b <= a <= b,
    ensures
        0 <= a * a <= b * b,
{
    assert(0 <= a * a <= b * b) by (nonlinear_arith)
        requires
            -b <= a <= b,
    ;
}

/// Squared Euclidean distance between two points.
pub open spec fn dist_sq(x1: int, y1: int, x2: int, y2: int) -> int {
    (x1 - x2) * (x1 - x2) + (y1 - y2) * (y1 - y2)
}

/// Two circles overlap when their center distance is strictly below the sum
/// of their radii; a tie counts as non-overlapping.  Compared in squares so
/// the test is exact.
pub open spec fn circles_overlap(x1: int, y1: int, r1: int, x2: int, y2: int, r2: int) -> bool {
    dist_sq(x1, y1, x2, y2) < (r1 + r2) * (r1 + r2)
}

pub open spec fn players_overlap(a: PlayerSpec, b: PlayerSpec) -> bool {
    circles_overlap(a.x as int, a.y as int, a.radius as int, b.x as int, b.y as int, b.radius as int)
}

pub open spec fn player_dot_overlap(p: PlayerSpec, d: Dot) -> bool {
    circles_overlap(p.x as int, p.y as int, p.radius as int, d.x as int, d.y as int, d.radius as int)
}

/// Exact overlap test on fixed-point circle data.
pub fn circles_overlap_check(x1: i64, y1: i64, r1: i64, x2: i64, y2: i64, r2: i64) -> (b: bool)
    requires
        -COORD_LIMIT <= x1 <= COORD_LIMIT,
        -COORD_LIMIT <= y1 <= COORD_LIMIT,
        -COORD_LIMIT <= x2 <= COORD_LIMIT,
        -COORD_LIMIT <= y2 <= COORD_LIMIT,
        0 <= r1 <= RADIUS_LIMIT,
        0 <= r2 <= RADIUS_LIMIT,
    ensures
        b == circles_overlap(x1 as int, y1 as int, r1 as int, x2 as int, y2 as int, r2 as int),
{
    let dx: i128 = x1 as i128 - x2 as i128;
    let dy: i128 = y1 as i128 - y2 as i128;
    let rs: i128 = r1 as i128 + r2 as i128;
    proof {
        lemma_sq_le(dx as int, 2 * COORD_LIMIT as int);
        lemma_sq_le(dy as int, 2 * COORD_LIMIT as int);
        lemma_sq_le(rs as int, 2 * RADIUS_LIMIT as int);
    }
    dx * dx + dy * dy < rs * rs
}

/// Whether two players' circles overlap.
pub fn cells_collisions_check(a: &PlayerSpec, b: &PlayerSpec) -> (r: bool)
    requires
        a.wf(),
        b.wf(),
    ensures
        r == players_overlap(*a, *b),
{
    circles_overlap_check(a.x, a.y, a.radius, b.x, b.y, b.radius)
}

/// Whether a player's circle overlaps a dot's circle.
pub fn dot_collision_check(player: &PlayerSpec, dot: &Dot) -> (r: bool)
    requires
        player.wf(),
        dot.wf(),
    ensures
        r == player_dot_overlap(*player, *dot),
{
    circles_overlap_check(player.x, player.y, player.radius, dot.x, dot.y, dot.radius)
}

/// Speed derived from a score: `base_speed / (1 + score / 200)`, carried out
/// exactly on fixed-point values as `base_speed * SCALE / (SCALE + 5 * score)`.
pub open spec fn speed_for_score(score: nat, base_speed: int) -> int {
    base_speed * (SCALE as int) / (SCALE as int + 5 * score)
}

/// Radius derived from a score: `BASE_RADIUS + sqrt(score)` in world units,
/// carried out exactly as `base_radius + sqrt_floor(score * SCALE * SCALE)`.
pub open spec fn radius_for_score(score: nat, base_radius: int) -> int {
    base_radius + sqrt_floor((score * (SCALE as int) * (SCALE as int)) as nat)
}

/// The derived speed lies between zero and the base speed.
pub proof fn lemma_speed_bounds(score: nat, base_speed: int)
    requires
        0 <= base_speed,
    ensures
        0 <= speed_for_score(score, base_speed) <= base_speed,
{
    let d = SCALE as int + 5 * score;
    assert(base_speed * (SCALE as int) >= 0) by (nonlinear_arith)
        requires
            base_speed >= 0,
    ;
    lemma_div_pos_is_pos(base_speed * (SCALE as int), d);
    assert(base_speed * (SCALE as int) <= base_speed * d) by (nonlinear_arith)
        requires
            base_speed >= 0,
            SCALE as int <= d,
    ;
    lemma_div_is_ordered(base_speed * (SCALE as int), base_speed * d, d);
    lemma_div_multiples_vanish(base_speed, d);
    assert(base_speed * d == d * base_speed) by (nonlinear_arith);
}

/// The derived radius stays above its base and below `RADIUS_LIMIT`.
pub proof fn lemma_radius_bounds(score: nat, base_radius: int)
    requires
        0 <= base_radius <= SPEED_LIMIT,
        score <= u64::MAX,
    ensures
        base_radius <= radius_for_score(score, base_radius) <= RADIUS_LIMIT,
        radius_for_score(score, base_radius) <= base_radius + 0x400_0000_0000,
{
    let n = (score * (SCALE as int) * (SCALE as int)) as nat;
    lemma_sqrt_floor_bounds(n);
    let r = sqrt_floor(n);
    assert(n < 0x400_0000_0000 * 0x400_0000_0000) by (nonlinear_arith)
        requires
            score <= u64::MAX,
            n == score * (SCALE as int) * (SCALE as int),
    ;
    if r >= 0x400_0000_0000 {
        assert(r * r >= 0x400_0000_0000 * 0x400_0000_0000) by (nonlinear_arith)
            requires
                r >= 0x400_0000_0000,
        ;
    }
}

/// Speed derived from score, on fixed-point values.
pub fn calculate_speed_from_score(score: u64, base_speed: i64) -> (r: i64)
    requires
        0 <= base_speed <= SPEED_LIMIT,
    ensures
        r == speed_for_score(score as nat, base_speed as int),
        0 <= r <= base_speed,
{
    proof {
        lemma_speed_bounds(score as nat, base_speed as int);
    }
    let num: u128 = (base_speed as u128) * (SCALE as u128);
    let den: u128 = (SCALE as u128) + 5 * (score as u128);
    (num / den) as i64
}

/// Radius derived from score, on fixed-point values.
pub fn calculate_radius_from_score(score: u64, base_radius: i64) -> (r: i64)
    requires
        0 <= base_radius <= SPEED_LIMIT,
    ensures
        r == radius_for_score(score as nat, base_radius as int),
        base_radius <= r <= RADIUS_LIMIT,
{
    proof {
        lemma_radius_bounds(score as nat, base_radius as int);
    }
    let root: u64 = isqrt((score as u128) * (SCALE as u128) * (SCALE as u128));
    base_radius + (root as i64)
}

/// Addition on scores, saturating at `u64::MAX`.
pub open spec fn sat_add_u64(a: nat, b: nat) -> nat {
    if a + b > u64::MAX { u64::MAX as nat } else { a + b }
}

/// Saturating score addition.
pub fn add_scores(a: u64, b: u64) -> (r: u64)
    ensures
        r == sat_add_u64(a as nat, b as nat),
{
    if u64::MAX - a >= b {
        a + b
    } else {
        u64::MAX
    }
}

/// `x` forced into `[lo, hi]`.
pub open spec fn clamp_spec(x: int, lo: int, hi: int) -> int {
    if x < lo { lo } else if x > hi { hi } else { x }
}

/// A coordinate forced into the world interval `[radius, WORLD_SIZE - radius]`.
/// A radius wider than the world leaves no interval; such a circle is pinned
/// at its radius rather than letting the simulation fail.
pub open spec fn world_clamp(x: int, radius: int) -> int {
    if 2 * radius <= WORLD_SIZE { clamp_spec(x, radius, WORLD_SIZE - radius) } else { radius }
}

pub fn clamp_i64(x: i64, lo: i64, hi: i64) -> (r: i64)
    requires
        lo <= hi,
    ensures
        r == clamp_spec(x as int, lo as int, hi as int),
{
    if x < lo {
        lo
    } else if x > hi {
        hi
    } else {
        x
    }
}

/// One frame's travel budget: `speed * dt` capped by the remaining distance.
pub open spec fn step_len(speed: int, dt_ms: int, remaining: int) -> int {
    if speed * dt_ms / 1000 <= remaining { speed * dt_ms / 1000 } else { remaining }
}

/// A velocity component scaled to a travel of `step` along a vector whose
/// magnitude is bounded by `mag`: the exact quotient `v * step / mag`,
/// rounded toward zero.
pub open spec fn scaled_delta(v: int, step: int, mag: int) -> int {
    if v >= 0 { (v * step) / mag } else { -((-v * step) / mag) }
}

/// Scaling a vector of magnitude at most `mag` down to length `step` never
/// produces a displacement longer than `step`, on either axis or in the
/// Euclidean norm.
pub proof fn lemma_scaled_norm(vx: int, vy: int, s: int, m: int)
    requires
        m >= 1,
        s >= 0,
        vx * vx + vy * vy <= m * m,
    ensures
        scaled_delta(vx, s, m) * scaled_delta(vx, s, m) + scaled_delta(vy, s, m) * scaled_delta(vy, s, m) <= s * s,
        -s <= scaled_delta(vx, s, m) <= s,
        -s <= scaled_delta(vy, s, m) <= s,
{
    let a = if vx >= 0 { vx } else { -vx };
    let b = if vy >= 0 { vy } else { -vy };
    let u = (a * s) / m;
    let w = (b * s) / m;
    assert(a * s >= 0 && b * s >= 0 && a * a == vx * vx && b * b == vy * vy) by (nonlinear_arith)
        requires
            a >= 0,
            b >= 0,
            s >= 0,
            a == vx || a == -vx,
            b == vy || b == -vy,
    ;
    lemma_div_pos_is_pos(a * s, m);
    lemma_div_pos_is_pos(b * s, m);
    lemma_fundamental_div_mod(a * s, m);
    lemma_fundamental_div_mod(b * s, m);
    assert(m * u <= a * s) by {
        assert((a * s) % m >= 0) by (nonlinear_arith)
            requires
                m >= 1,
                a * s >= 0,
        ;
    }
    assert(m * w <= b * s) by {
        assert((b * s) % m >= 0) by (nonlinear_arith)
            requires
                m >= 1,
                b * s >= 0,
        ;
    }
    assert(u * u + w * w <= s * s) by (nonlinear_arith)
        requires
            m >= 1,
            s >= 0,
            u >= 0,
            w >= 0,
            m * u <= a * s,
            m * w <= b * s,
            a >= 0,
            b >= 0,
            a * a + b * b <= m * m,
    ;
    assert(u <= s && w <= s) by (nonlinear_arith)
        requires
            s >= 0,
            u >= 0,
            w >= 0,
            u * u + w * w <= s * s,
    ;
    assert(scaled_delta(vx, s, m) == u || scaled_delta(vx, s, m) == -u);
    assert(scaled_delta(vy, s, m) == w || scaled_delta(vy, s, m) == -w);
    assert(scaled_delta(vx, s, m) * scaled_delta(vx, s, m) == u * u) by (nonlinear_arith)
        requires
            scaled_delta(vx, s, m) == u || scaled_delta(vx, s, m) == -u,
    ;
    assert(scaled_delta(vy, s, m) * scaled_delta(vy, s, m) == w * w) by (nonlinear_arith)
        requires
            scaled_delta(vy, s, m) == w || scaled_delta(vy, s, m) == -w,
    ;
}

/// One velocity component of a move, scaled so the whole step travels at
/// most `step`.
pub(crate) fn scaled_move(v: i64, step: i64, mag: u64) -> (r: i64)
    requires
        0 < mag,
        0 <= step,
        (v as int) * (v as int) <= (mag as int) * (mag as int),
        i64::MIN < v,
    ensures
        r == scaled_delta(v as int, step as int, mag as int),
        -step <= r <= step,
{
    proof {
        if v >= 0 {
            assert(v <= mag) by (nonlinear_arith)
                requires
                    v >= 0,
                    mag > 0,
                    (v as int) * (v as int) <= (mag as int) * (mag as int),
            ;
        } else {
            assert(-v <= mag) by (nonlinear_arith)
                requires
                    v < 0,
                    mag > 0,
                    (v as int) * (v as int) <= (mag as int) * (mag as int),
            ;
        }
    }
    let a: u128 = if v >= 0 { v as u128 } else { (-v) as u128 };
    proof {
        assert((a as int) * (step as int) <= (u64::MAX as int) * (i64::MAX as int)) by (nonlinear_arith)
            requires
                0 <= a <= u64::MAX,
                0 <= step <= i64::MAX,
        ;
    }
    let q: u128 = a * (step as u128) / (mag as u128);
    proof {
        let ai = a as int;
        let si = step as int;
        let mi = mag as int;
        assert(ai * si <= mi * si) by (nonlinear_arith)
            requires
                0 <= ai <= mi,
                si >= 0,
        ;
        lemma_div_is_ordered(ai * si, mi * si, mi);
        assert(mi * si == si * mi) by (nonlinear_arith);
        lemma_div_multiples_vanish(si, mi);
        assert((ai * si) / mi <= si);
        lemma_div_pos_is_pos(ai * si, mi);
    }
    if v >= 0 {
        q as i64
    } else {
        -(q as i64)
    }
}

/// Advance a player one frame of discrete distance-based movement: travel
/// `min(speed * dt, remaining_distance)` along the unit direction of
/// `(vx, vy)`, consume the remaining distance, zero the motion vector when
/// the move completes, and always clamp the position to the world bounds.
pub fn update_position(player: &mut PlayerSpec, speed: i64, delta_time_ms: u64)
    requires
        old(player).wf(),
        0 <= speed <= SPEED_LIMIT,
        0 < delta_time_ms <= DT_LIMIT,
    ensures
        final(player).wf(),
        final(player).id == old(player).id,
        final(player).name == old(player).name,
        final(player).radius == old(player).radius,
        final(player).score == old(player).score,
        final(player).speed == old(player).speed,
        final(player).sequence_number == old(player).sequence_number,
        final(player).x == world_clamp(old(player).x + frame_dx(*old(player), speed as int, delta_time_ms as int), old(player).radius as int),
        final(player).y == world_clamp(old(player).y + frame_dy(*old(player), speed as int, delta_time_ms as int), old(player).radius as int),
        final(player).remaining_distance == if is_moving(*old(player)) {
            old(player).remaining_distance - frame_step(*old(player), speed as int, delta_time_ms as int)
        } else {
            old(player).remaining_distance as int
        },
        final(player).remaining_distance >= 0,
        final(player).vx == if is_moving(*old(player)) && frame_step(*old(player), speed as int, delta_time_ms as int) == old(player).remaining_distance { 0 } else { old(player).vx },
        final(player).vy == if is_moving(*old(player)) && frame_step(*old(player), speed as int, delta_time_ms as int) == old(player).remaining_distance { 0 } else { old(player).vy },
        2 * old(player).radius <= WORLD_SIZE ==> old(player).radius <= final(player).x <= WORLD_SIZE - old(player).radius
            && old(player).radius <= final(player).y <= WORLD_SIZE - old(player).radius,
        in_world_bounds(*old(player)) ==> dist_sq(final(player).x as int, final(player).y as int, old(player).x as int, old(player).y as int)
            <= frame_step(*old(player), speed as int, delta_time_ms as int) * frame_step(*old(player), speed as int, delta_time_ms as int),
        *final(player) == moved_player(*old(player), speed as int, delta_time_ms as int),
{
    let ghost p0 = *player;
    let ghost spd = speed as int;
    let ghost dt = delta_time_ms as int;
    let rem0 = player.remaining_distance;
    if rem0 > 0 {
        proof {
            assert((speed as int) * (delta_time_ms as int) <= (SPEED_LIMIT as int) * (DT_LIMIT as int)) by (nonlinear_arith)
                requires
                    0 <= speed <= SPEED_LIMIT,
                    0 < delta_time_ms <= DT_LIMIT,
            ;
        }
        let budget: u64 = (speed as u64) * delta_time_ms / 1000;
        let dist_frame: i64 = if (budget as i64) <= rem0 { budget as i64 } else { rem0 };
        assert(dist_frame == frame_step(p0, spd, dt));
        let vx = player.vx;
        let vy = player.vy;
        proof {
            lemma_sq_le(vx as int, SPEED_LIMIT as int);
            lemma_sq_le(vy as int, SPEED_LIMIT as int);
        }
        let m2: u128 = ((vx as i128) * (vx as i128) + (vy as i128) * (vy as i128)) as u128;
        if m2 > 0 {
            proof {
                lemma_sqrt_ceil_bounds(m2 as nat);
            }
            let mag: u64 = isqrt_ceil(m2);
            let ddx = scaled_move(vx, dist_frame, mag);
            let ddy = scaled_move(vy, dist_frame, mag);
            player.x = player.x + ddx;
            player.y = player.y + ddy;
            player.remaining_distance = rem0 - dist_frame;
            if player.remaining_distance <= 0 {
                player.remaining_distance = 0;
                player.vx = 0;
                player.vy = 0;
            }
        }
    }
    let r = player.radius;
    if 2 * r <= WORLD_SIZE {
        player.x = clamp_i64(player.x, r, WORLD_SIZE - r);
        player.y = clamp_i64(player.y, r, WORLD_SIZE - r);
    } else {
        player.x = r;
        player.y = r;
    }
    proof {
        if is_moving(p0) {
            let m2v = vel_sq(p0.vx as int, p0.vy as int);
            let mag = sqrt_ceil(m2v as nat) as int;
            lemma_sqrt_ceil_bounds(m2v as nat);
            lemma_scaled_norm(p0.vx as int, p0.vy as int, frame_step(p0, spd, dt), mag);
        }
        if in_world_bounds(p0) {
            let fs = frame_step(p0, spd, dt);
            let cx = player.x - p0.x;
            let cy = player.y - p0.y;
            let dx0 = frame_dx(p0, spd, dt);
            let dy0 = frame_dy(p0, spd, dt);
            assert((0 <= cx <= dx0) || (dx0 <= cx <= 0));
            assert((0 <= cy <= dy0) || (dy0 <= cy <= 0));
            assert(cx * cx <= dx0 * dx0) by (nonlinear_arith)
                requires
                    (0 <= cx <= dx0) || (dx0 <= cx <= 0),
            ;
            assert(cy * cy <= dy0 * dy0) by (nonlinear_arith)
                requires
                    (0 <= cy <= dy0) || (dy0 <= cy <= 0),
            ;
            if is_moving(p0) {
                assert(dx0 * dx0 + dy0 * dy0 <= fs * fs);
            } else {
                assert(dx0 == 0 && dy0 == 0);
                assert(dx0 * dx0 + dy0 * dy0 <= fs * fs) by (nonlinear_arith)
                    requires
                        dx0 == 0,
                        dy0 == 0,
                        fs >= 0,
                ;
            }
            assert(dist_sq(player.x as int, player.y as int, p0.x as int, p0.y as int) == cx * cx + cy * cy);
            assert(cx * cx + cy * cy <= fs * fs);
        }
    }
}

/// Squared magnitude of a velocity vector.
pub open spec fn vel_sq(vx: int, vy: int) -> int {
    vx * vx + vy * vy
}

/// A player is moving this frame when it has distance left to travel and a
/// nonzero motion vector.
pub open spec fn is_moving(p: PlayerSpec) -> bool {
    p.remaining_distance > 0 && vel_sq(p.vx as int, p.vy as int) > 0
}

/// The travel budget of one frame for a player.
pub open spec fn frame_step(p: PlayerSpec, speed: int, dt_ms: int) -> int {
    step_len(speed, dt_ms, p.remaining_distance as int)
}

/// This frame's displacement along the x axis, before clamping.
pub open spec fn frame_dx(p: PlayerSpec, speed: int, dt_ms: int) -> int {
    if is_moving(p) {
        scaled_delta(p.vx as int, frame_step(p, speed, dt_ms), sqrt_ceil(vel_sq(p.vx as int, p.vy as int) as nat) as int)
    } else {
        0
    }
}

/// This frame's displacement along the y axis, before clamping.
pub open spec fn frame_dy(p: PlayerSpec, speed: int, dt_ms: int) -> int {
    if is_moving(p) {
        scaled_delta(p.vy as int, frame_step(p, speed, dt_ms), sqrt_ceil(vel_sq(p.vx as int, p.vy as int) as nat) as int)
    } else {
        0
    }
}

/// The value of a player after one frame of movement: the result
/// `update_position` promises, as a function of the old player.
pub open spec fn moved_player(p: PlayerSpec, speed: int, dt_ms: int) -> PlayerSpec {
    let fs = frame_step(p, speed, dt_ms);
    let nx = world_clamp(p.x + frame_dx(p, speed, dt_ms), p.radius as int);
    let ny = world_clamp(p.y + frame_dy(p, speed, dt_ms), p.radius as int);
    let nrem = if is_moving(p) { p.remaining_distance - fs } else { p.remaining_distance as int };
    let stop = is_moving(p) && fs == p.remaining_distance;
    PlayerSpec {
        x: nx as i64,
        y: ny as i64,
        remaining_distance: nrem as i64,
        vx: if stop { 0 } else { p.vx },
        vy: if stop { 0 } else { p.vy },
        ..p
    }
}

/// A player whose circle lies inside the world on both axes.
pub open spec fn in_world_bounds(p: PlayerSpec) -> bool {
    &&& 2 * p.radius <= WORLD_SIZE
    &&& p.radius <= p.x <= WORLD_SIZE - p.radius
    &&& p.radius <= p.y <= WORLD_SIZE - p.radius
}

/// Transfer a consumed player's score to the consumer and recompute the
/// consumer's radius from its new score.
pub fn consume_calculation(big_player: &mut PlayerSpec, small_player: &PlayerSpec, base_radius: i64)
    requires
        0 <= base_radius <= SPEED_LIMIT,
    ensures
        final(big_player).score == sat_add_u64(old(big_player).score as nat, small_player.score as nat),
        final(big_player).radius == radius_for_score(final(big_player).score as nat, base_radius as int),
        final(big_player).id == old(big_player).id,
        final(big_player).name == old(big_player).name,
        final(big_player).x == old(big_player).x,
        final(big_player).y == old(big_player).y,
        final(big_player).speed == old(big_player).speed,
        final(big_player).sequence_number == old(big_player).sequence_number,
        final(big_player).remaining_distance == old(big_player).remaining_distance,
        final(big_player).vx == old(big_player).vx,
        final(big_player).vy == old(big_player).vy,
{
    big_player.score = add_scores(big_player.score, small_player.score);
    big_player.radius = calculate_radius_from_score(big_player.score, base_radius);
}

} // verus!
