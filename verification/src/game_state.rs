//! The game state store: the single source of truth for players, dots,
//! pending inputs, ready flags and the status state machine.

use vstd::prelude::*;
use crate::{
    GameConstant, GameStatus, BASE_RADIUS, WORLD_SIZE, DIST_LIMIT, DIR_LIMIT, RADIUS_LIMIT,
    SCALE, DT_LIMIT, FRAC_LIMIT,
};
use crate::objects::{PlayerSpec, Dot};
use crate::protocol::ClientMessage;
use crate::mechanics::{
    radius_for_score, speed_for_score, clamp_spec, clamp_i64, circles_overlap,
    circles_overlap_check, sqrt_floor, player_dot_overlap, dot_collision_check,
    sat_add_u64, add_scores, calculate_radius_from_score, calculate_speed_from_score,
    lemma_radius_bounds, lemma_speed_bounds, players_overlap, cells_collisions_check,
    vel_sq, sqrt_ceil, scaled_delta, isqrt_ceil, scaled_move, lemma_sq_le,
    lemma_sqrt_ceil_bounds, moved_player, update_position,
};
use vstd::arithmetic::div_mod::lemma_div_by_multiple;
use crate::names::{default_name, default_player_name};
use crate::rng::random_below;

verus! {

/// A queued discrete move command: a direction and a distance in milli-units.
#[derive(Clone, Copy)]
pub struct PendingMove {
    pub dx: i64,
    pub dy: i64,
    pub distance: i64,
}

impl PendingMove {
    pub open spec fn wf(&self) -> bool {
        &&& -DIR_LIMIT <= self.dx <= DIR_LIMIT
        &&& -DIR_LIMIT <= self.dy <= DIR_LIMIT
        &&& 0 <= self.distance <= DIST_LIMIT
    }
}

/// Whether some player in the table carries the given id.
pub open spec fn contains_player(ps: Seq<PlayerSpec>, id: u64) -> bool {
    exists|i: int| 0 <= i < ps.len() && ps[i].id == id
}

/// The index of the player with the given id; meaningful when the table
/// holds it and ids are distinct.
pub open spec fn idx_of(ps: Seq<PlayerSpec>, id: u64) -> int {
    choose|i: int| 0 <= i < ps.len() && ps[i].id == id
}

/// No two players share an id.
pub open spec fn distinct_ids(ps: Seq<PlayerSpec>) -> bool {
    forall|i: int, j: int| 0 <= i < j < ps.len() ==> ps[i].id != ps[j].id
}

/// No two dots share an id.
pub open spec fn distinct_dot_ids(ds: Seq<Dot>) -> bool {
    forall|i: int, j: int| 0 <= i < j < ds.len() ==> ds[i].id != ds[j].id
}

/// All dot ids lie below the allocation counter.
pub open spec fn dot_ids_below(ds: Seq<Dot>, n: u64) -> bool {
    forall|i: int| 0 <= i < ds.len() ==> (#[trigger] ds[i]).id < n
}

/// A player's derived fields agree with its score.
pub open spec fn derived_ok(p: PlayerSpec, base_speed: int) -> bool {
    &&& p.radius == radius_for_score(p.score as nat, BASE_RADIUS as int)
    &&& p.speed == speed_for_score(p.score as nat, base_speed)
}

/// A pending entry, when present, is in bounds.
pub open spec fn pending_wf(p: Option<PendingMove>) -> bool {
    match p {
        Some(pm) => pm.wf(),
        None => true,
    }
}

/// Every flag of a ready table is set.
pub open spec fn all_ready(rs: Seq<bool>) -> bool {
    forall|i: int| 0 <= i < rs.len() ==> rs[i]
}

/// `p` with another display name.
pub open spec fn with_name(p: PlayerSpec, name: String) -> PlayerSpec {
    PlayerSpec { name: name, ..p }
}

/// The world state.  `player_inputs` and `ready_players` run parallel to
/// `players`: index `i` of each belongs to the player at index `i`.
pub struct GameState {
    pub tick: u64,
    pub status: GameStatus,
    pub players: Vec<PlayerSpec>,
    pub dots: Vec<Dot>,
    pub constants: GameConstant,
    pub player_inputs: Vec<Option<PendingMove>>,
    pub ready_players: Vec<bool>,
    pub next_dot_id: u64,
}

impl GameState {
    /// Well-formedness: constants in range, tables aligned, every entity in
    /// bounds with its derived fields consistent, and all ids distinct.
    pub open spec fn wf(&self) -> bool {
        &&& self.constants.wf()
        &&& self.player_inputs@.len() == self.players@.len()
        &&& self.ready_players@.len() == self.players@.len()
        &&& forall|i: int| 0 <= i < self.players@.len() ==> (#[trigger] self.players@[i]).wf()
        &&& forall|i: int| 0 <= i < self.players@.len() ==>
                derived_ok(#[trigger] self.players@[i], self.constants.move_speed_base as int)
        &&& distinct_ids(self.players@)
        &&& forall|i: int| 0 <= i < self.dots@.len() ==> (#[trigger] self.dots@[i]).wf()
        &&& distinct_dot_ids(self.dots@)
        &&& dot_ids_below(self.dots@, self.next_dot_id)
        &&& forall|i: int| 0 <= i < self.player_inputs@.len() ==> pending_wf(#[trigger] self.player_inputs@[i])
    }

    /// The unique index of an id among distinct ids is the chosen one.
    pub proof fn lemma_idx_of(ps: Seq<PlayerSpec>, id: u64, i: int)
        requires
            distinct_ids(ps),
            0 <= i < ps.len(),
            ps[i].id == id,
        ensures
            contains_player(ps, id),
            idx_of(ps, id) == i,
    {
        assert(contains_player(ps, id));
        let j = idx_of(ps, id);
        if j != i {
            assert(ps[i].id != ps[j].id);
        }
    }

    /// Index of the player carrying `id`, if any.
    pub fn find_player(&self, id: u64) -> (r: Option<usize>)
        ensures
            match r {
                Some(i) => i < self.players@.len() && self.players@[i as int].id == id,
                None => !contains_player(self.players@, id),
            },
    {
        let n = self.players.len();
        let mut i: usize = 0;
        while i < n
            invariant
                i <= n,
                n == self.players@.len(),
                forall|k: int| 0 <= k < i ==> self.players@[k].id != id,
            decreases n - i,
        {
            if self.players[i].id == id {
                return Some(i);
            }
            i = i + 1;
        }
        None
    }

    /// Whether at least one player is connected and every one is ready.
    pub fn all_players_ready(&self) -> (r: bool)
        requires
            self.ready_players@.len() == self.players@.len(),
        ensures
            r == (self.players@.len() > 0 && all_ready(self.ready_players@)),
    {
        if self.players.len() == 0 {
            return false;
        }
        let n = self.ready_players.len();
        let mut i: usize = 0;
        while i < n
            invariant
                i <= n,
                n == self.ready_players@.len(),
                forall|k: int| 0 <= k < i ==> self.ready_players@[k],
            decreases n - i,
        {
            if !self.ready_players[i] {
                return false;
            }
            i = i + 1;
        }
        true
    }

    /// Apply one inbound client message.
    ///
    /// `Join` renames the player; `Move` overwrites its pending command,
    /// clamped to the accepted bounds; `Ready` sets its flag and starts the
    /// game exactly when at least one player is connected and all are ready;
    /// the deprecated `Input` and the session-level `Quit` change nothing.
    pub fn handle_message(&mut self, id: u64, msg: ClientMessage)
        requires
            old(self).wf(),
        ensures
            final(self).wf(),
            final(self).tick == old(self).tick,
            final(self).constants == old(self).constants,
            final(self).dots@ == old(self).dots@,
            final(self).next_dot_id == old(self).next_dot_id,
            msg matches ClientMessage::Join { name } ==> {
                &&& final(self).player_inputs@ == old(self).player_inputs@
                &&& final(self).ready_players@ == old(self).ready_players@
                &&& final(self).status == old(self).status
                &&& final(self).players@ == if contains_player(old(self).players@, id) {
                        old(self).players@.update(
                            idx_of(old(self).players@, id),
                            with_name(old(self).players@[idx_of(old(self).players@, id)], name),
                        )
                    } else {
                        old(self).players@
                    }
            },
            msg is Input ==> *final(self) == *old(self),
            msg matches ClientMessage::Move { dx, dy, distance } ==> {
                &&& final(self).players@ == old(self).players@
                &&& final(self).ready_players@ == old(self).ready_players@
                &&& final(self).status == old(self).status
                &&& final(self).player_inputs@ == if contains_player(old(self).players@, id) {
                        old(self).player_inputs@.update(
                            idx_of(old(self).players@, id),
                            Some(PendingMove {
                                dx: clamp_spec(dx as int, -DIR_LIMIT as int, DIR_LIMIT as int) as i64,
                                dy: clamp_spec(dy as int, -DIR_LIMIT as int, DIR_LIMIT as int) as i64,
                                distance: clamp_spec(distance as int, 0, DIST_LIMIT as int) as i64,
                            }),
                        )
                    } else {
                        old(self).player_inputs@
                    }
            },
            msg is Ready ==> {
                &&& final(self).players@ == old(self).players@
                &&& final(self).player_inputs@ == old(self).player_inputs@
                &&& final(self).ready_players@ == if contains_player(old(self).players@, id) {
                        old(self).ready_players@.update(idx_of(old(self).players@, id), true)
                    } else {
                        old(self).ready_players@
                    }
                &&& final(self).status == if old(self).players@.len() > 0 && all_ready(final(self).ready_players@) {
                        GameStatus::Playing
                    } else {
                        old(self).status
                    }
            },
            msg is Quit ==> *final(self) == *old(self),
    {
        match msg {
            ClientMessage::Join { name } => {
                let found = self.find_player(id);
                if let Some(i) = found {
                    proof {
                        Self::lemma_idx_of(self.players@, id, i as int);
                    }
                    self.players[i].name = name;
                }
            },
            ClientMessage::Input { input: _ } => {},
            ClientMessage::Move { dx, dy, distance } => {
                let found = self.find_player(id);
                if let Some(i) = found {
                    proof {
                        Self::lemma_idx_of(self.players@, id, i as int);
                    }
                    let dxc = clamp_i64(dx, -DIR_LIMIT, DIR_LIMIT);
                    let dyc = clamp_i64(dy, -DIR_LIMIT, DIR_LIMIT);
                    let dc = clamp_i64(distance, 0, DIST_LIMIT);
                    self.player_inputs[i] = Some(PendingMove { dx: dxc, dy: dyc, distance: dc });
                }
            },
            ClientMessage::Ready => {
                let found = self.find_player(id);
                if let Some(i) = found {
                    proof {
                        Self::lemma_idx_of(self.players@, id, i as int);
                    }
                    self.ready_players[i] = true;
                }
                if self.all_players_ready() {
                    self.status = GameStatus::Playing;
                }
            },
            ClientMessage::Quit => {},
        }
    }

    /// Delete a player and its pending input and ready flag.  Unknown ids
    /// change nothing, so the operation is idempotent.
    pub fn remove_player(&mut self, id: u64)
        requires
            old(self).wf(),
        ensures
            final(self).wf(),
            !contains_player(final(self).players@, id),
            final(self).tick == old(self).tick,
            final(self).status == old(self).status,
            final(self).constants == old(self).constants,
            final(self).dots@ == old(self).dots@,
            final(self).next_dot_id == old(self).next_dot_id,
            contains_player(old(self).players@, id) ==> {
                let i = idx_of(old(self).players@, id);
                &&& final(self).players@ == old(self).players@.remove(i)
                &&& final(self).player_inputs@ == old(self).player_inputs@.remove(i)
                &&& final(self).ready_players@ == old(self).ready_players@.remove(i)
            },
            !contains_player(old(self).players@, id) ==> *final(self) == *old(self),
    {
        let found = self.find_player(id);
        if let Some(i) = found {
            proof {
                Self::lemma_idx_of(self.players@, id, i as int);
            }
            let ghost ps0 = self.players@;
            self.players.remove(i);
            self.player_inputs.remove(i);
            self.ready_players.remove(i);
            proof {
                assert forall|k: int| 0 <= k < self.players@.len() implies (#[trigger] self.players@[k]).id != id by {
                    if k < i {
                        assert(self.players@[k] == ps0[k]);
                    } else {
                        assert(self.players@[k] == ps0[k + 1]);
                    }
                }
            }
        }
    }

    /// Produce the immutable broadcast payload: a full copy of the world.
    pub fn to_snapshot(&self) -> (r: crate::GameSnapshot)
        ensures
            r.tick == self.tick,
            r.status == self.status,
            r.players@ == self.players@,
            r.dots@ == self.dots@,
            r.constants == self.constants,
    {
        let mut players: Vec<PlayerSpec> = Vec::new();
        let n = self.players.len();
        let mut i: usize = 0;
        while i < n
            invariant
                i <= n,
                n == self.players@.len(),
                players@ =~= self.players@.subrange(0, i as int),
            decreases n - i,
        {
            players.push(self.players[i].duplicate());
            proof {
                assert(players@ =~= self.players@.subrange(0, i + 1));
            }
            i = i + 1;
        }
        let mut dots: Vec<Dot> = Vec::new();
        let m = self.dots.len();
        let mut j: usize = 0;
        while j < m
            invariant
                j <= m,
                m == self.dots@.len(),
                dots@ =~= self.dots@.subrange(0, j as int),
            decreases m - j,
        {
            dots.push(self.dots[j].duplicate());
            proof {
                assert(dots@ =~= self.dots@.subrange(0, j + 1));
            }
            j = j + 1;
        }
        proof {
            assert(players@ =~= self.players@);
            assert(dots@ =~= self.dots@);
        }
        crate::GameSnapshot {
            tick: self.tick,
            status: self.status,
            players: players,
            dots: dots,
            constants: self.constants,
        }
    }
}

/// No circle of the world overlaps the circle at `(x, y)` with `radius`.
pub open spec fn spot_clear(ps: Seq<PlayerSpec>, ds: Seq<Dot>, x: int, y: int, radius: int) -> bool {
    &&& forall|i: int| 0 <= i < ps.len() ==> !circles_overlap(
            x, y, radius,
            (#[trigger] ps[i]).x as int, ps[i].y as int, ps[i].radius as int)
    &&& forall|j: int| 0 <= j < ds.len() ==> !circles_overlap(
            x, y, radius,
            (#[trigger] ds[j]).x as int, ds[j].y as int, ds[j].radius as int)
}

/// Fresh players and respawned players start from score zero, whose derived
/// fields are the base radius and the base speed.
pub proof fn lemma_fresh_derived(base_speed: int)
    requires
        0 <= base_speed,
    ensures
        speed_for_score(0, base_speed) == base_speed,
        radius_for_score(0, BASE_RADIUS as int) == BASE_RADIUS as int,
{
    lemma_div_by_multiple(base_speed, SCALE as int);
    assert(sqrt_floor(0) == 0);
}

impl GameState {
    /// Whether the circle at `(x, y)` of `radius` overlaps nothing.
    fn position_clear(&self, x: i64, y: i64, radius: i64) -> (b: bool)
        requires
            self.wf(),
            0 <= x <= WORLD_SIZE,
            0 <= y <= WORLD_SIZE,
            0 < radius <= RADIUS_LIMIT,
        ensures
            b == spot_clear(self.players@, self.dots@, x as int, y as int, radius as int),
    {
        let n = self.players.len();
        let mut i: usize = 0;
        while i < n
            invariant
                self.wf(),
                0 <= x <= WORLD_SIZE,
                0 <= y <= WORLD_SIZE,
                0 < radius <= RADIUS_LIMIT,
                i <= n,
                n == self.players@.len(),
                forall|k: int| 0 <= k < i ==> !circles_overlap(
                    x as int, y as int, radius as int,
                    (#[trigger] self.players@[k]).x as int, self.players@[k].y as int, self.players@[k].radius as int),
            decreases n - i,
        {
            let p = &self.players[i];
            if circles_overlap_check(x, y, radius, p.x, p.y, p.radius) {
                return false;
            }
            i = i + 1;
        }
        let m = self.dots.len();
        let mut j: usize = 0;
        while j < m
            invariant
                self.wf(),
                0 <= x <= WORLD_SIZE,
                0 <= y <= WORLD_SIZE,
                0 < radius <= RADIUS_LIMIT,
                j <= m,
                m == self.dots@.len(),
                forall|k: int| 0 <= k < self.players@.len() ==> !circles_overlap(
                    x as int, y as int, radius as int,
                    (#[trigger] self.players@[k]).x as int, self.players@[k].y as int, self.players@[k].radius as int),
                forall|k: int| 0 <= k < j ==> !circles_overlap(
                    x as int, y as int, radius as int,
                    (#[trigger] self.dots@[k]).x as int, self.dots@[k].y as int, self.dots@[k].radius as int),
            decreases m - j,
        {
            let d = &self.dots[j];
            if circles_overlap_check(x, y, radius, d.x, d.y, d.radius) {
                return false;
            }
            j = j + 1;
        }
        true
    }

    /// Sample a spawn position for a circle of `radius` by rejection: up to
    /// `max_attempts` random draws, falling back to the world center.  The
    /// returned flag says whether the position is known to overlap nothing.
    fn find_empty_position(&self, radius: i64, max_attempts: usize) -> (r: (i64, i64, bool))
        requires
            self.wf(),
            0 < radius,
            2 * radius < WORLD_SIZE,
        ensures
            radius <= r.0 <= WORLD_SIZE - radius,
            radius <= r.1 <= WORLD_SIZE - radius,
            r.2 ==> spot_clear(self.players@, self.dots@, r.0 as int, r.1 as int, radius as int),
            !r.2 ==> r.0 == 1_000_000 && r.1 == 1_000_000,
            self.players@.len() == 0 && self.dots@.len() == 0 && max_attempts > 0 ==> r.2,
    {
        let range: u64 = (WORLD_SIZE - 2 * radius) as u64;
        let mut attempt: usize = 0;
        while attempt < max_attempts
            invariant
                self.wf(),
                0 < radius,
                2 * radius < WORLD_SIZE,
                range == WORLD_SIZE - 2 * radius,
                attempt > 0 ==> self.players@.len() > 0 || self.dots@.len() > 0,
            decreases max_attempts - attempt,
        {
            let x = radius + random_below(range) as i64;
            let y = radius + random_below(range) as i64;
            if self.position_clear(x, y, radius) {
                return (x, y, true);
            }
            attempt = attempt + 1;
        }
        (1_000_000, 1_000_000, false)
    }
}

impl GameState {
    /// Append `count` random dots, ids taken from the allocation counter.
    fn spawn_initial_dots(&mut self, count: usize)
        requires
            old(self).wf(),
            old(self).next_dot_id + count <= u64::MAX,
        ensures
            final(self).wf(),
            final(self).tick == old(self).tick,
            final(self).status == old(self).status,
            final(self).constants == old(self).constants,
            final(self).players@ == old(self).players@,
            final(self).player_inputs@ == old(self).player_inputs@,
            final(self).ready_players@ == old(self).ready_players@,
            final(self).dots@.len() == old(self).dots@.len() + count,
            final(self).dots@.subrange(0, old(self).dots@.len() as int) == old(self).dots@,
            final(self).next_dot_id == old(self).next_dot_id + count,
    {
        let ghost len0 = self.dots@.len();
        let mut c: usize = 0;
        while c < count
            invariant
                self.wf(),
                c <= count,
                self.next_dot_id + count - c <= u64::MAX,
                self.tick == old(self).tick,
                self.status == old(self).status,
                self.constants == old(self).constants,
                self.players@ == old(self).players@,
                self.player_inputs@ == old(self).player_inputs@,
                self.ready_players@ == old(self).ready_players@,
                self.dots@.len() == len0 + c,
                self.dots@.subrange(0, len0 as int) =~= old(self).dots@,
                self.next_dot_id == old(self).next_dot_id + c,
                len0 == old(self).dots@.len(),
            decreases count - c,
        {
            self.spawn_one_dot();
            c = c + 1;
            proof {
                assert(self.dots@.subrange(0, len0 as int) =~= old(self).dots@);
            }
        }
    }

    /// Append one random dot at a sampled position, clear of other circles
    /// when the sampling succeeded.
    fn spawn_one_dot(&mut self)
        requires
            old(self).wf(),
            old(self).next_dot_id < u64::MAX,
        ensures
            final(self).wf(),
            final(self).tick == old(self).tick,
            final(self).status == old(self).status,
            final(self).constants == old(self).constants,
            final(self).players@ == old(self).players@,
            final(self).player_inputs@ == old(self).player_inputs@,
            final(self).ready_players@ == old(self).ready_players@,
            final(self).dots@.len() == old(self).dots@.len() + 1,
            final(self).dots@.subrange(0, old(self).dots@.len() as int) == old(self).dots@,
            final(self).dots@.last().id == old(self).next_dot_id,
            final(self).next_dot_id == old(self).next_dot_id + 1,
    {
        let t = random_below(3);
        let (score, color, radius): (u64, (u8, u8, u8), i64) = if t == 0 {
            (2, (100, 150, 255), 4000)
        } else if t == 1 {
            (5, (255, 255, 100), 6000)
        } else {
            (10, (255, 100, 100), 8000)
        };
        let (x, y, _clear) = self.find_empty_position(radius, 100);
        let id = self.next_dot_id;
        self.next_dot_id = self.next_dot_id + 1;
        let ghost ds0 = self.dots@;
        self.dots.push(Dot { id, x, y, radius, color, score });
        proof {
            assert(self.dots@.subrange(0, ds0.len() as int) =~= ds0);
            assert forall|i: int, j: int| 0 <= i < j < self.dots@.len() implies
                self.dots@[i].id != self.dots@[j].id by {
                if j == self.dots@.len() - 1 {
                    assert(self.dots@[i] == ds0[i]);
                }
            }
        }
    }
}


impl GameState {
    /// Build a world with the given constants, in the waiting state, with a
    /// fixed initial population of 150 dots and no players.
    pub fn new(constants: GameConstant) -> (r: GameState)
        requires
            constants.wf(),
        ensures
            r.wf(),
            r.tick == 0,
            r.status == GameStatus::WaitingToStart,
            r.players@.len() == 0,
            r.player_inputs@.len() == 0,
            r.ready_players@.len() == 0,
            r.constants == constants,
            r.dots@.len() == 150,
    {
        let mut gs = GameState {
            tick: 0,
            status: GameStatus::WaitingToStart,
            players: Vec::new(),
            dots: Vec::new(),
            constants,
            player_inputs: Vec::new(),
            ready_players: Vec::new(),
            next_dot_id: 1,
        };
        gs.spawn_initial_dots(150);
        gs
    }

    /// Append one dot at a position that overlaps nothing, to keep the food
    /// population constant; reports whether a clear spot was found.
    pub fn spawn_new_dot(&mut self) -> (r: bool)
        requires
            old(self).wf(),
            old(self).next_dot_id < u64::MAX,
        ensures
            final(self).wf(),
            final(self).tick == old(self).tick,
            final(self).status == old(self).status,
            final(self).constants == old(self).constants,
            final(self).players@ == old(self).players@,
            final(self).player_inputs@ == old(self).player_inputs@,
            final(self).ready_players@ == old(self).ready_players@,
            r ==> {
                &&& final(self).dots@.len() == old(self).dots@.len() + 1
                &&& final(self).dots@.subrange(0, old(self).dots@.len() as int) == old(self).dots@
                &&& final(self).next_dot_id == old(self).next_dot_id + 1
                &&& {
                    let d = final(self).dots@.last();
                    &&& d.id == old(self).next_dot_id
                    &&& d.tier_ok()
                    &&& d.radius <= d.x <= WORLD_SIZE - d.radius
                    &&& d.radius <= d.y <= WORLD_SIZE - d.radius
                    &&& spot_clear(old(self).players@, old(self).dots@, d.x as int, d.y as int, d.radius as int)
                }
            },
            !r ==> *final(self) == *old(self),
            old(self).players@.len() == 0 && old(self).dots@.len() == 0 ==> r,
    {
        let t = random_below(3);
        let (score, color, radius): (u64, (u8, u8, u8), i64) = if t == 0 {
            (2, (100, 150, 255), 4000)
        } else if t == 1 {
            (5, (255, 255, 100), 6000)
        } else {
            (10, (255, 100, 100), 8000)
        };
        let (x, y, clear) = self.find_empty_position(radius, 100);
        if clear {
            let id = self.next_dot_id;
            self.next_dot_id = self.next_dot_id + 1;
            let ghost ds0 = self.dots@;
            self.dots.push(Dot { id, x, y, radius, color, score });
            proof {
                assert(self.dots@.subrange(0, ds0.len() as int) =~= ds0);
                assert forall|i: int, j: int| 0 <= i < j < self.dots@.len() implies
                    self.dots@[i].id != self.dots@[j].id by {
                    if j == self.dots@.len() - 1 {
                        assert(self.dots@[i] == ds0[i]);
                    }
                }
            }
            return true;
        }
        let range: u64 = (WORLD_SIZE - 2 * radius) as u64;
        let mut k: usize = 0;
        while k < 10
            invariant
                *self == *old(self),
                self.wf(),
                self.next_dot_id < u64::MAX,
                k <= 10,
                0 < radius <= 8000,
                range == WORLD_SIZE - 2 * radius,
                (score == 2 && color == (100u8, 150u8, 255u8) && radius == 4000)
                    || (score == 5 && color == (255u8, 255u8, 100u8) && radius == 6000)
                    || (score == 10 && color == (255u8, 100u8, 100u8) && radius == 8000),
            decreases 10 - k,
        {
            let x = radius + random_below(range) as i64;
            let y = radius + random_below(range) as i64;
            if self.position_clear(x, y, radius) {
                let id = self.next_dot_id;
                self.next_dot_id = self.next_dot_id + 1;
                let ghost ds0 = self.dots@;
                self.dots.push(Dot { id, x, y, radius, color, score });
                proof {
                    assert(self.dots@.subrange(0, ds0.len() as int) =~= ds0);
                    assert forall|i: int, j: int| 0 <= i < j < self.dots@.len() implies
                        self.dots@[i].id != self.dots@[j].id by {
                        if j == self.dots@.len() - 1 {
                            assert(self.dots@[i] == ds0[i]);
                        }
                    }
                }
                return true;
            }
            k = k + 1;
        }
        false
    }

    /// Admit a new player under a fresh id: spawn it at a sampled position
    /// with score zero, not ready, with no pending input.
    pub fn add_player(&mut self, id: u64)
        requires
            old(self).wf(),
            !contains_player(old(self).players@, id),
        ensures
            final(self).wf(),
            final(self).tick == old(self).tick,
            final(self).status == old(self).status,
            final(self).constants == old(self).constants,
            final(self).dots@ == old(self).dots@,
            final(self).next_dot_id == old(self).next_dot_id,
            final(self).players@.len() == old(self).players@.len() + 1,
            final(self).players@.subrange(0, old(self).players@.len() as int) == old(self).players@,
            final(self).player_inputs@ == old(self).player_inputs@.push(None),
            final(self).ready_players@ == old(self).ready_players@.push(false),
            contains_player(final(self).players@, id),
            ({
                let p = final(self).players@.last();
                &&& p.id == id
                &&& p.name@ == default_name(id as nat)
                &&& p.score == 0
                &&& p.radius == BASE_RADIUS
                &&& p.speed == old(self).constants.move_speed_base
                &&& p.sequence_number == 0
                &&& p.remaining_distance == 0
                &&& p.vx == 0
                &&& p.vy == 0
                &&& BASE_RADIUS <= p.x <= WORLD_SIZE - BASE_RADIUS
                &&& BASE_RADIUS <= p.y <= WORLD_SIZE - BASE_RADIUS
                &&& spot_clear(old(self).players@, old(self).dots@, p.x as int, p.y as int, BASE_RADIUS as int)
                    || (p.x == 1_000_000 && p.y == 1_000_000)
            }),
    {
        let (x, y, _clear) = self.find_empty_position(BASE_RADIUS, 100);
        let name = default_player_name(id);
        proof {
            lemma_fresh_derived(self.constants.move_speed_base as int);
        }
        let p = PlayerSpec {
            id,
            name,
            x,
            y,
            radius: BASE_RADIUS,
            score: 0,
            speed: self.constants.move_speed_base,
            sequence_number: 0,
            remaining_distance: 0,
            vx: 0,
            vy: 0,
        };
        let ghost ps0 = self.players@;
        self.players.push(p);
        self.player_inputs.push(None);
        self.ready_players.push(false);
        proof {
            assert(self.players@.subrange(0, ps0.len() as int) =~= ps0);
            assert forall|i: int, j: int| 0 <= i < j < self.players@.len() implies
                self.players@[i].id != self.players@[j].id by {
                if j == self.players@.len() - 1 {
                    assert(self.players@[i] == ps0[i]);
                }
            }
            assert(self.players@[self.players@.len() - 1].id == id);
            assert(contains_player(self.players@, id));
        }
    }

    /// Reset a still-connected player in place: fresh position, score zero,
    /// motion cleared, identity and name kept.  Unknown ids change nothing.
    pub fn respawn_player(&mut self, id: u64)
        requires
            old(self).wf(),
        ensures
            final(self).wf(),
            final(self).tick == old(self).tick,
            final(self).status == old(self).status,
            final(self).constants == old(self).constants,
            final(self).dots@ == old(self).dots@,
            final(self).next_dot_id == old(self).next_dot_id,
            final(self).ready_players@ == old(self).ready_players@,
            !contains_player(old(self).players@, id) ==> *final(self) == *old(self),
            contains_player(old(self).players@, id) ==> {
                let i = idx_of(old(self).players@, id);
                &&& final(self).players@.len() == old(self).players@.len()
                &&& forall|j: int| 0 <= j < old(self).players@.len() && j != i
                        ==> final(self).players@[j] == old(self).players@[j]
                &&& final(self).player_inputs@ == old(self).player_inputs@.update(i, None)
                &&& {
                    let p = final(self).players@[i];
                    &&& p.id == id
                    &&& p.name == old(self).players@[i].name
                    &&& p.sequence_number == old(self).players@[i].sequence_number
                    &&& p.score == 0
                    &&& p.radius == BASE_RADIUS
                    &&& p.speed == old(self).constants.move_speed_base
                    &&& p.remaining_distance == 0
                    &&& p.vx == 0
                    &&& p.vy == 0
                    &&& BASE_RADIUS <= p.x <= WORLD_SIZE - BASE_RADIUS
                    &&& BASE_RADIUS <= p.y <= WORLD_SIZE - BASE_RADIUS
                    &&& spot_clear(old(self).players@, old(self).dots@, p.x as int, p.y as int, BASE_RADIUS as int)
                        || (p.x == 1_000_000 && p.y == 1_000_000)
                }
            },
    {
        let found = self.find_player(id);
        if let Some(i) = found {
            proof {
                Self::lemma_idx_of(self.players@, id, i as int);
                lemma_fresh_derived(self.constants.move_speed_base as int);
            }
            let (x, y, _clear) = self.find_empty_position(BASE_RADIUS, 100);
            self.players[i].x = x;
            self.players[i].y = y;
            self.players[i].radius = BASE_RADIUS;
            self.players[i].score = 0;
            let base = self.constants.move_speed_base;
            self.players[i].speed = base;
            self.players[i].remaining_distance = 0;
            self.players[i].vx = 0;
            self.players[i].vy = 0;
            self.player_inputs[i] = None;
            proof {
                assert forall|a: int, b: int| 0 <= a < b < self.players@.len() implies
                    self.players@[a].id != self.players@[b].id by {
                    assert(self.players@[a].id == old(self).players@[a].id);
                    assert(self.players@[b].id == old(self).players@[b].id);
                }
            }
        }
    }
}


/// Index of the first player whose circle overlaps dot `d`, scanning from
/// `k`; `-1` when none does.
pub open spec fn first_overlapper_from(ps: Seq<PlayerSpec>, d: Dot, k: int) -> int
    decreases ps.len() - k,
{
    if k < 0 || k >= ps.len() {
        -1
    } else if player_dot_overlap(ps[k], d) {
        k
    } else {
        first_overlapper_from(ps, d, k + 1)
    }
}

/// The player that consumes dot `d`: the first one overlapping it.
pub open spec fn dot_eater(ps: Seq<PlayerSpec>, d: Dot) -> int {
    first_overlapper_from(ps, d, 0)
}

/// Total score player `i` gains from the first `m` dots.
pub open spec fn dot_gain_upto(ps: Seq<PlayerSpec>, ds: Seq<Dot>, i: int, m: int) -> nat
    decreases m,
{
    if m <= 0 {
        0
    } else {
        dot_gain_upto(ps, ds, i, m - 1)
            + if dot_eater(ps, ds[m - 1]) == i { ds[m - 1].score as nat } else { 0 }
    }
}

/// Total score player `i` gains in the dot pass.
pub open spec fn dot_gain(ps: Seq<PlayerSpec>, ds: Seq<Dot>, i: int) -> nat {
    dot_gain_upto(ps, ds, i, ds.len() as int)
}

/// The dots among the first `m` that no player overlaps, in order.
pub open spec fn dots_kept_upto(ps: Seq<PlayerSpec>, ds: Seq<Dot>, m: int) -> Seq<Dot>
    decreases m,
{
    if m <= 0 {
        Seq::empty()
    } else {
        let pre = dots_kept_upto(ps, ds, m - 1);
        if dot_eater(ps, ds[m - 1]) >= 0 {
            pre
        } else {
            pre.push(ds[m - 1])
        }
    }
}

/// A player after gaining `g` score: score saturated into a `u64`, radius
/// and speed recomputed from the new score.
pub open spec fn grown(p: PlayerSpec, g: nat, base_speed: int) -> PlayerSpec {
    let s2 = sat_add_u64(p.score as nat, g);
    PlayerSpec {
        score: s2 as u64,
        radius: radius_for_score(s2, BASE_RADIUS as int) as i64,
        speed: speed_for_score(s2, base_speed) as i64,
        ..p
    }
}

/// `first_overlapper_from` is unchanged by skipping a non-overlapping player.
proof fn lemma_skip_overlapper(ps: Seq<PlayerSpec>, d: Dot, k: int)
    requires
        0 <= k < ps.len(),
        !player_dot_overlap(ps[k], d),
    ensures
        first_overlapper_from(ps, d, k) == first_overlapper_from(ps, d, k + 1),
{
}

/// A gain clipped into a `u64`.
pub open spec fn clip_u64(g: nat) -> nat {
    if g > u64::MAX { u64::MAX as nat } else { g }
}

impl GameState {
    /// The first player overlapping dot `d`, if any.
    fn first_overlapper(&self, d: &Dot) -> (r: Option<usize>)
        requires
            forall|i: int| 0 <= i < self.players@.len() ==> (#[trigger] self.players@[i]).wf(),
            d.wf(),
        ensures
            match r {
                Some(i) => i < self.players@.len() && dot_eater(self.players@, *d) == i as int,
                None => dot_eater(self.players@, *d) == -1,
            },
    {
        let n = self.players.len();
        let mut i: usize = 0;
        while i < n
            invariant
                i <= n,
                n == self.players@.len(),
                forall|k: int| 0 <= k < n ==> (#[trigger] self.players@[k]).wf(),
                d.wf(),
                dot_eater(self.players@, *d) == first_overlapper_from(self.players@, *d, i as int),
            decreases n - i,
        {
            if dot_collision_check(&self.players[i], d) {
                return Some(i);
            }
            proof {
                lemma_skip_overlapper(self.players@, *d, i as int);
            }
            i = i + 1;
        }
        None
    }

    /// Resolve player–dot collisions: every dot that overlaps a player is
    /// removed, its score credited to the first player in table order that
    /// overlaps it, and each player's radius and speed are recomputed from
    /// its new score.
    pub fn handle_player_dot_collision(&mut self)
        requires
            old(self).wf(),
        ensures
            final(self).wf(),
            final(self).tick == old(self).tick,
            final(self).status == old(self).status,
            final(self).constants == old(self).constants,
            final(self).player_inputs@ == old(self).player_inputs@,
            final(self).ready_players@ == old(self).ready_players@,
            final(self).next_dot_id == old(self).next_dot_id,
            final(self).players@.len() == old(self).players@.len(),
            forall|i: int| 0 <= i < old(self).players@.len() ==>
                final(self).players@[i] == grown(
                    old(self).players@[i],
                    dot_gain(old(self).players@, old(self).dots@, i),
                    old(self).constants.move_speed_base as int,
                ),
            final(self).dots@ == dots_kept_upto(old(self).players@, old(self).dots@, old(self).dots@.len() as int),
    {
        let ghost ps0 = self.players@;
        let ghost ds0 = self.dots@;
        let n = self.players.len();
        let m = self.dots.len();
        let mut gains: Vec<u64> = Vec::new();
        let mut t: usize = 0;
        while t < n
            invariant
                t <= n,
                gains@.len() == t,
                forall|k: int| 0 <= k < t ==> gains@[k] == 0,
            decreases n - t,
        {
            gains.push(0);
            t = t + 1;
        }
        let mut eaten: Vec<bool> = Vec::new();
        let mut j: usize = 0;
        while j < m
            invariant
                *self == *old(self),
                self.wf(),
                ps0 == self.players@,
                ds0 == self.dots@,
                n == ps0.len(),
                m == ds0.len(),
                j <= m,
                eaten@.len() == j,
                gains@.len() == n,
                forall|q: int| 0 <= q < j ==> eaten@[q] == (dot_eater(ps0, ds0[q]) >= 0),
                forall|i: int| 0 <= i < n ==> gains@[i] == clip_u64(dot_gain_upto(ps0, ds0, i, j as int)),
            decreases m - j,
        {
            let d = self.dots[j].duplicate();
            let hit = self.first_overlapper(&d);
            match hit {
                Some(i) => {
                    let g0 = gains[i];
                    let gnew = add_scores(g0, d.score);
                    gains[i] = gnew;
                    eaten.push(true);
                    proof {
                        let gi = dot_gain_upto(ps0, ds0, i as int, j as int);
                        assert(dot_gain_upto(ps0, ds0, i as int, j + 1) == gi + ds0[j as int].score);
                        assert forall|i2: int| 0 <= i2 < n implies
                            gains@[i2] == clip_u64(dot_gain_upto(ps0, ds0, i2, j + 1)) by {
                            if i2 != i {
                                assert(dot_gain_upto(ps0, ds0, i2, j + 1) == dot_gain_upto(ps0, ds0, i2, j as int));
                            }
                        }
                    }
                },
                None => {
                    eaten.push(false);
                    proof {
                        assert forall|i2: int| 0 <= i2 < n implies
                            gains@[i2] == clip_u64(dot_gain_upto(ps0, ds0, i2, j + 1)) by {
                            assert(dot_gain_upto(ps0, ds0, i2, j + 1) == dot_gain_upto(ps0, ds0, i2, j as int));
                        }
                    }
                },
            }
            j = j + 1;
        }
        let mut new_dots: Vec<Dot> = Vec::new();
        j = 0;
        while j < m
            invariant
                *self == *old(self),
                self.wf(),
                ps0 == self.players@,
                ds0 == self.dots@,
                m == ds0.len(),
                j <= m,
                eaten@.len() == m,
                forall|q: int| 0 <= q < m ==> eaten@[q] == (dot_eater(ps0, ds0[q]) >= 0),
                new_dots@ == dots_kept_upto(ps0, ds0, j as int),
                forall|k: int| 0 <= k < new_dots@.len()
                    ==> exists|q: int| 0 <= q < j && #[trigger] new_dots@[k] == ds0[q],
                distinct_dot_ids(new_dots@),
            decreases m - j,
        {
            if !eaten[j] {
                let ghost nd0 = new_dots@;
                new_dots.push(self.dots[j].duplicate());
                proof {
                    assert forall|k1: int, k2: int| 0 <= k1 < k2 < new_dots@.len() implies
                        new_dots@[k1].id != new_dots@[k2].id by {
                        if k2 == new_dots@.len() - 1 {
                            assert(new_dots@[k1] == nd0[k1]);
                            let q = choose|q: int| 0 <= q < j && nd0[k1] == ds0[q];
                            assert(ds0[q].id != ds0[j as int].id);
                        }
                    }
                    assert forall|k: int| 0 <= k < new_dots@.len() implies
                        exists|q: int| 0 <= q < j + 1 && #[trigger] new_dots@[k] == ds0[q] by {
                        if k < nd0.len() {
                            let q = choose|q: int| 0 <= q < j && nd0[k] == ds0[q];
                            assert(0 <= q < j + 1 && new_dots@[k] == ds0[q]);
                        } else {
                            assert(new_dots@[k] == ds0[j as int]);
                        }
                    }
                }
            }
            j = j + 1;
        }
        self.dots = new_dots;
        proof {
            assert forall|k: int| 0 <= k < self.dots@.len() implies (#[trigger] self.dots@[k]).wf() by {
                let q = choose|q: int| 0 <= q < m && self.dots@[k] == ds0[q];
            }
            assert forall|k: int| 0 <= k < self.dots@.len() implies (#[trigger] self.dots@[k]).id < self.next_dot_id by {
                let q = choose|q: int| 0 <= q < m && self.dots@[k] == ds0[q];
            }
        }
        let base = self.constants.move_speed_base;
        let mut i: usize = 0;
        while i < n
            invariant
                old(self).wf(),
                ps0 == old(self).players@,
                ds0 == old(self).dots@,
                m == ds0.len(),
                self.tick == old(self).tick,
                self.status == old(self).status,
                self.player_inputs@ == old(self).player_inputs@,
                self.ready_players@ == old(self).ready_players@,
                self.next_dot_id == old(self).next_dot_id,
                self.dots@ == dots_kept_upto(ps0, ds0, m as int),
                forall|k: int| 0 <= k < self.dots@.len() ==> (#[trigger] self.dots@[k]).wf(),
                distinct_dot_ids(self.dots@),
                dot_ids_below(self.dots@, self.next_dot_id),
                i <= n,
                n == ps0.len(),
                gains@.len() == n,
                forall|k: int| 0 <= k < n ==> gains@[k] == clip_u64(dot_gain(ps0, ds0, k)),
                self.players@.len() == n,
                base == self.constants.move_speed_base,
                self.constants == old(self).constants,
                self.constants.wf(),
                forall|k: int| 0 <= k < i ==> self.players@[k] == grown(ps0[k], dot_gain(ps0, ds0, k), base as int),
                forall|k: int| i <= k < n ==> self.players@[k] == ps0[k],
                forall|k: int| 0 <= k < n ==> (#[trigger] ps0[k]).wf(),
                forall|k: int| 0 <= k < i ==> (#[trigger] self.players@[k]).wf(),
                forall|k: int| 0 <= k < i ==> derived_ok(#[trigger] self.players@[k], base as int),
            decreases n - i,
        {
            let g = gains[i];
            let s_old = self.players[i].score;
            let s_new = add_scores(s_old, g);
            self.players[i].score = s_new;
            let rad = calculate_radius_from_score(s_new, BASE_RADIUS);
            self.players[i].radius = rad;
            let spd = calculate_speed_from_score(s_new, base);
            self.players[i].speed = spd;
            proof {
                lemma_radius_bounds(s_new as nat, BASE_RADIUS as int);
                lemma_speed_bounds(s_new as nat, base as int);
                assert(sat_add_u64(ps0[i as int].score as nat, clip_u64(dot_gain(ps0, ds0, i as int)))
                    == sat_add_u64(ps0[i as int].score as nat, dot_gain(ps0, ds0, i as int)));
                assert(self.players@[i as int] == grown(ps0[i as int], dot_gain(ps0, ds0, i as int), base as int));
            }
            i = i + 1;
        }
        proof {
            assert forall|a: int, b: int| 0 <= a < b < self.players@.len() implies
                self.players@[a].id != self.players@[b].id by {
                assert(self.players@[a].id == ps0[a].id);
                assert(self.players@[b].id == ps0[b].id);
            }
        }
    }
}


/// Player `a` may consume player `b`: their circles overlap and `a`'s radius
/// exceeds `b`'s by more than the size-advantage fraction.
pub open spec fn dominates(a: PlayerSpec, b: PlayerSpec, frac: int) -> bool {
    players_overlap(a, b) && (a.radius as int) * (SCALE as int) > (b.radius as int) * frac
}

/// Index of the first player that can consume player `j`, scanning from `k`;
/// `-1` when none can.
pub open spec fn first_dominator_from(ps: Seq<PlayerSpec>, j: int, frac: int, k: int) -> int
    decreases ps.len() - k,
{
    if k < 0 || k >= ps.len() {
        -1
    } else if k != j && dominates(ps[k], ps[j], frac) {
        k
    } else {
        first_dominator_from(ps, j, frac, k + 1)
    }
}

/// The player credited with consuming player `j`, or `-1` if `j` survives.
pub open spec fn player_eater(ps: Seq<PlayerSpec>, j: int, frac: int) -> int {
    first_dominator_from(ps, j, frac, 0)
}

/// Total score player `i` gains from consuming among the first `m` players.
pub open spec fn pp_gain_upto(ps: Seq<PlayerSpec>, frac: int, i: int, m: int) -> nat
    decreases m,
{
    if m <= 0 {
        0
    } else {
        pp_gain_upto(ps, frac, i, m - 1)
            + if player_eater(ps, m - 1, frac) == i { ps[m - 1].score as nat } else { 0 }
    }
}

/// Total score player `i` gains in the player pass.
pub open spec fn pp_gain(ps: Seq<PlayerSpec>, frac: int, i: int) -> nat {
    pp_gain_upto(ps, frac, i, ps.len() as int)
}

/// The players among the first `m` that no player consumes, in order, each
/// grown by the score it gained.
pub open spec fn pp_survivors_upto(ps: Seq<PlayerSpec>, frac: int, base_speed: int, m: int) -> Seq<PlayerSpec>
    decreases m,
{
    if m <= 0 {
        Seq::empty()
    } else {
        let pre = pp_survivors_upto(ps, frac, base_speed, m - 1);
        if player_eater(ps, m - 1, frac) >= 0 {
            pre
        } else {
            pre.push(grown(ps[m - 1], pp_gain(ps, frac, m - 1), base_speed))
        }
    }
}

/// The entries of a table parallel to the player table, kept exactly where
/// the player survives the player pass.
pub open spec fn kept_upto<T>(xs: Seq<T>, ps: Seq<PlayerSpec>, frac: int, m: int) -> Seq<T>
    decreases m,
{
    if m <= 0 {
        Seq::empty()
    } else {
        let pre = kept_upto(xs, ps, frac, m - 1);
        if player_eater(ps, m - 1, frac) >= 0 {
            pre
        } else {
            pre.push(xs[m - 1])
        }
    }
}

/// `first_dominator_from` is unchanged by skipping a non-dominator.
proof fn lemma_skip_dominator(ps: Seq<PlayerSpec>, j: int, frac: int, k: int)
    requires
        0 <= k < ps.len(),
        k == j || !dominates(ps[k], ps[j], frac),
    ensures
        first_dominator_from(ps, j, frac, k) == first_dominator_from(ps, j, frac, k + 1),
{
}

/// Exact size-advantage test on fixed-point values.
pub fn dominates_check(a: &PlayerSpec, b: &PlayerSpec, frac: i64) -> (r: bool)
    requires
        a.wf(),
        b.wf(),
        0 <= frac <= FRAC_LIMIT,
    ensures
        r == dominates(*a, *b, frac as int),
{
    if cells_collisions_check(a, b) {
        proof {
            assert((b.radius as int) * (frac as int) <= (RADIUS_LIMIT as int) * (FRAC_LIMIT as int))
                by (nonlinear_arith)
                requires
                    0 <= b.radius <= RADIUS_LIMIT,
                    0 <= frac <= FRAC_LIMIT,
            ;
            assert((b.radius as int) * (frac as int) >= 0) by (nonlinear_arith)
                requires
                    0 <= b.radius,
                    0 <= frac,
            ;
            assert(0 <= (a.radius as int) * (SCALE as int) <= (RADIUS_LIMIT as int) * (SCALE as int))
                by (nonlinear_arith)
                requires
                    0 <= a.radius <= RADIUS_LIMIT,
            ;
        }
        (a.radius as i128) * (SCALE as i128) > (b.radius as i128) * (frac as i128)
    } else {
        false
    }
}

impl GameState {
    /// A grown copy of a player: score increased (saturating), radius and
    /// speed recomputed.
    fn grow_player(p: &PlayerSpec, g: u64, base_speed: i64) -> (r: PlayerSpec)
        requires
            0 <= base_speed <= crate::SPEED_LIMIT,
        ensures
            r == grown(*p, g as nat, base_speed as int),
    {
        let s_new = add_scores(p.score, g);
        proof {
            lemma_radius_bounds(s_new as nat, BASE_RADIUS as int);
            lemma_speed_bounds(s_new as nat, base_speed as int);
        }
        PlayerSpec {
            id: p.id,
            name: p.name.clone(),
            x: p.x,
            y: p.y,
            radius: calculate_radius_from_score(s_new, BASE_RADIUS),
            score: s_new,
            speed: calculate_speed_from_score(s_new, base_speed),
            sequence_number: p.sequence_number,
            remaining_distance: p.remaining_distance,
            vx: p.vx,
            vy: p.vy,
        }
    }

    /// The first player that can consume player `j`, if any.
    fn first_dominator(&self, j: usize) -> (r: Option<usize>)
        requires
            forall|i: int| 0 <= i < self.players@.len() ==> (#[trigger] self.players@[i]).wf(),
            j < self.players@.len(),
            self.constants.wf(),
        ensures
            match r {
                Some(i) => i < self.players@.len()
                    && player_eater(self.players@, j as int, self.constants.collide_size_fraction as int) == i as int,
                None => player_eater(self.players@, j as int, self.constants.collide_size_fraction as int) == -1,
            },
    {
        let frac = self.constants.collide_size_fraction;
        let n = self.players.len();
        let mut k: usize = 0;
        while k < n
            invariant
                k <= n,
                n == self.players@.len(),
                j < n,
                forall|i: int| 0 <= i < n ==> (#[trigger] self.players@[i]).wf(),
                0 <= frac <= FRAC_LIMIT,
                frac == self.constants.collide_size_fraction,
                player_eater(self.players@, j as int, frac as int)
                    == first_dominator_from(self.players@, j as int, frac as int, k as int),
            decreases n - k,
        {
            if k != j {
                let b = &self.players[j];
                let a = &self.players[k];
                if dominates_check(a, b, frac) {
                    return Some(k);
                }
            }
            proof {
                lemma_skip_dominator(self.players@, j as int, frac as int, k as int);
            }
            k = k + 1;
        }
        None
    }

    /// Resolve player–player collisions pairwise: every player that some
    /// larger player overlaps and out-sizes by the size-advantage fraction
    /// is removed, its score credited to the first such player in table
    /// order, and each survivor's radius and speed recomputed.  Pending
    /// inputs and ready flags of removed players are dropped with them.
    pub fn handle_player_player_collision(&mut self)
        requires
            old(self).wf(),
        ensures
            final(self).wf(),
            final(self).tick == old(self).tick,
            final(self).status == old(self).status,
            final(self).constants == old(self).constants,
            final(self).dots@ == old(self).dots@,
            final(self).next_dot_id == old(self).next_dot_id,
            final(self).players@ == pp_survivors_upto(
                old(self).players@,
                old(self).constants.collide_size_fraction as int,
                old(self).constants.move_speed_base as int,
                old(self).players@.len() as int,
            ),
            final(self).player_inputs@ == kept_upto(
                old(self).player_inputs@,
                old(self).players@,
                old(self).constants.collide_size_fraction as int,
                old(self).players@.len() as int,
            ),
            final(self).ready_players@ == kept_upto(
                old(self).ready_players@,
                old(self).players@,
                old(self).constants.collide_size_fraction as int,
                old(self).players@.len() as int,
            ),
    {
        let ghost ps0 = self.players@;
        let ghost in0 = self.player_inputs@;
        let ghost rd0 = self.ready_players@;
        let ghost fr = self.constants.collide_size_fraction as int;
        let n = self.players.len();
        let mut gains: Vec<u64> = Vec::new();
        let mut t: usize = 0;
        while t < n
            invariant
                t <= n,
                gains@.len() == t,
                forall|k: int| 0 <= k < t ==> gains@[k] == 0,
            decreases n - t,
        {
            gains.push(0);
            t = t + 1;
        }
        let mut eaten: Vec<bool> = Vec::new();
        let mut j: usize = 0;
        while j < n
            invariant
                *self == *old(self),
                self.wf(),
                ps0 == self.players@,
                fr == self.constants.collide_size_fraction as int,
                n == ps0.len(),
                j <= n,
                eaten@.len() == j,
                gains@.len() == n,
                forall|q: int| 0 <= q < j ==> eaten@[q] == (player_eater(ps0, q, fr) >= 0),
                forall|i: int| 0 <= i < n ==> gains@[i] == clip_u64(pp_gain_upto(ps0, fr, i, j as int)),
            decreases n - j,
        {
            let hit = self.first_dominator(j);
            match hit {
                Some(i) => {
                    let g0 = gains[i];
                    let gnew = add_scores(g0, self.players[j].score);
                    gains[i] = gnew;
                    eaten.push(true);
                    proof {
                        assert forall|i2: int| 0 <= i2 < n implies
                            gains@[i2] == clip_u64(pp_gain_upto(ps0, fr, i2, j + 1)) by {
                            if i2 != i {
                                assert(pp_gain_upto(ps0, fr, i2, j + 1) == pp_gain_upto(ps0, fr, i2, j as int));
                            }
                        }
                    }
                },
                None => {
                    eaten.push(false);
                    proof {
                        assert forall|i2: int| 0 <= i2 < n implies
                            gains@[i2] == clip_u64(pp_gain_upto(ps0, fr, i2, j + 1)) by {
                            assert(pp_gain_upto(ps0, fr, i2, j + 1) == pp_gain_upto(ps0, fr, i2, j as int));
                        }
                    }
                },
            }
            j = j + 1;
        }
        let base = self.constants.move_speed_base;
        let mut new_ps: Vec<PlayerSpec> = Vec::new();
        let mut new_in: Vec<Option<PendingMove>> = Vec::new();
        let mut new_rd: Vec<bool> = Vec::new();
        j = 0;
        while j < n
            invariant
                *self == *old(self),
                self.wf(),
                ps0 == self.players@,
                in0 == self.player_inputs@,
                rd0 == self.ready_players@,
                fr == self.constants.collide_size_fraction as int,
                base == self.constants.move_speed_base,
                n == ps0.len(),
                j <= n,
                eaten@.len() == n,
                gains@.len() == n,
                forall|q: int| 0 <= q < n ==> eaten@[q] == (player_eater(ps0, q, fr) >= 0),
                forall|i: int| 0 <= i < n ==> gains@[i] == clip_u64(pp_gain(ps0, fr, i)),
                new_ps@ == pp_survivors_upto(ps0, fr, base as int, j as int),
                new_in@ == kept_upto(in0, ps0, fr, j as int),
                new_rd@ == kept_upto(rd0, ps0, fr, j as int),
                forall|k: int| 0 <= k < new_ps@.len()
                    ==> exists|q: int| 0 <= q < j && (#[trigger] new_ps@[k]).id == ps0[q].id,
                distinct_ids(new_ps@),
                forall|k: int| 0 <= k < new_ps@.len() ==> (#[trigger] new_ps@[k]).wf(),
                forall|k: int| 0 <= k < new_ps@.len() ==> derived_ok(#[trigger] new_ps@[k], base as int),
                new_in@.len() == new_ps@.len(),
                new_rd@.len() == new_ps@.len(),
                forall|k: int| 0 <= k < new_in@.len() ==> pending_wf(#[trigger] new_in@[k]),
            decreases n - j,
        {
            if !eaten[j] {
                let ghost nps0 = new_ps@;
                let g = gains[j];
                let p = Self::grow_player(&self.players[j], g, base);
                proof {
                    assert(sat_add_u64(ps0[j as int].score as nat, clip_u64(pp_gain(ps0, fr, j as int)))
                        == sat_add_u64(ps0[j as int].score as nat, pp_gain(ps0, fr, j as int)));
                    assert(p == grown(ps0[j as int], pp_gain(ps0, fr, j as int), base as int));
                    lemma_radius_bounds(p.score as nat, BASE_RADIUS as int);
                    lemma_speed_bounds(p.score as nat, base as int);
                }
                new_ps.push(p);
                new_in.push(self.player_inputs[j]);
                new_rd.push(self.ready_players[j]);
                proof {
                    assert forall|k1: int, k2: int| 0 <= k1 < k2 < new_ps@.len() implies
                        new_ps@[k1].id != new_ps@[k2].id by {
                        if k2 == new_ps@.len() - 1 {
                            assert(new_ps@[k1] == nps0[k1]);
                            let q = choose|q: int| 0 <= q < j && nps0[k1].id == ps0[q].id;
                            assert(ps0[q].id != ps0[j as int].id);
                        }
                    }
                    assert forall|k: int| 0 <= k < new_ps@.len() implies
                        exists|q: int| 0 <= q < j + 1 && (#[trigger] new_ps@[k]).id == ps0[q].id by {
                        if k < nps0.len() {
                            let q = choose|q: int| 0 <= q < j && nps0[k].id == ps0[q].id;
                            assert(0 <= q < j + 1 && new_ps@[k].id == ps0[q].id);
                        } else {
                            assert(new_ps@[k].id == ps0[j as int].id);
                        }
                    }
                }
            }
            j = j + 1;
        }
        self.players = new_ps;
        self.player_inputs = new_in;
        self.ready_players = new_rd;
    }
}


/// The effect of taking a pending command: a player that is not mid-move
/// starts the commanded move, its motion vector set to the command's
/// direction scaled to the player's speed; anything else leaves it as it is.
pub open spec fn applied_move(p: PlayerSpec, pending: Option<PendingMove>) -> PlayerSpec {
    match pending {
        Some(pm) => {
            if p.remaining_distance <= 0 && pm.distance > 0 && vel_sq(pm.dx as int, pm.dy as int) > 0 {
                let mag = sqrt_ceil(vel_sq(pm.dx as int, pm.dy as int) as nat) as int;
                PlayerSpec {
                    vx: scaled_delta(pm.dx as int, p.speed as int, mag) as i64,
                    vy: scaled_delta(pm.dy as int, p.speed as int, mag) as i64,
                    remaining_distance: pm.distance,
                    ..p
                }
            } else {
                p
            }
        },
        None => p,
    }
}

/// The players after one frame of movement, each moved at the speed its
/// score derives.
pub open spec fn after_moves(ps: Seq<PlayerSpec>, base_speed: int, dt: int) -> Seq<PlayerSpec> {
    Seq::new(ps.len(), |i: int| moved_player(ps[i], speed_for_score(ps[i].score as nat, base_speed), dt))
}

impl GameState {
    /// Start each commanded move: a player with a pending command that is
    /// not already mid-move gets its motion vector and remaining distance
    /// set; stale commands of moving players are dropped.  Every pending
    /// entry is consumed.
    pub fn apply_pending_moves(&mut self)
        requires
            old(self).wf(),
        ensures
            final(self).wf(),
            final(self).tick == old(self).tick,
            final(self).status == old(self).status,
            final(self).constants == old(self).constants,
            final(self).dots@ == old(self).dots@,
            final(self).next_dot_id == old(self).next_dot_id,
            final(self).ready_players@ == old(self).ready_players@,
            final(self).players@.len() == old(self).players@.len(),
            final(self).player_inputs@.len() == old(self).player_inputs@.len(),
            forall|i: int| 0 <= i < old(self).players@.len() ==>
                final(self).players@[i] == applied_move(old(self).players@[i], old(self).player_inputs@[i]),
            forall|i: int| 0 <= i < old(self).player_inputs@.len() ==> final(self).player_inputs@[i] is None,
    {
        let ghost ps0 = self.players@;
        let ghost in0 = self.player_inputs@;
        let n = self.players.len();
        let mut i: usize = 0;
        while i < n
            invariant
                old(self).wf(),
                ps0 == old(self).players@,
                in0 == old(self).player_inputs@,
                n == ps0.len(),
                i <= n,
                self.players@.len() == n,
                self.player_inputs@.len() == n,
                self.tick == old(self).tick,
                self.status == old(self).status,
                self.constants == old(self).constants,
                self.dots@ == old(self).dots@,
                self.next_dot_id == old(self).next_dot_id,
                self.ready_players@ == old(self).ready_players@,
                forall|k: int| 0 <= k < i ==> self.players@[k] == applied_move(ps0[k], in0[k]),
                forall|k: int| 0 <= k < i ==> self.player_inputs@[k] is None,
                forall|k: int| i <= k < n ==> self.players@[k] == ps0[k],
                forall|k: int| i <= k < n ==> self.player_inputs@[k] == in0[k],
                forall|k: int| 0 <= k < i ==> (#[trigger] self.players@[k]).wf(),
                forall|k: int| 0 <= k < i
                    ==> derived_ok(#[trigger] self.players@[k], self.constants.move_speed_base as int),
            decreases n - i,
        {
            let pending = self.player_inputs[i];
            self.player_inputs[i] = None;
            if let Some(pm) = pending {
                let rem = self.players[i].remaining_distance;
                if rem <= 0 && pm.distance > 0 {
                    proof {
                        assert(pending_wf(in0[i as int]));
                        assert(pm.wf());
                        lemma_sq_le(pm.dx as int, DIR_LIMIT as int);
                        lemma_sq_le(pm.dy as int, DIR_LIMIT as int);
                    }
                    let m2i: i128 = (pm.dx as i128) * (pm.dx as i128) + (pm.dy as i128) * (pm.dy as i128);
                    if m2i > 0 {
                        proof {
                            lemma_sqrt_ceil_bounds(m2i as nat);
                        }
                        let mag = isqrt_ceil(m2i as u128);
                        proof {
                            assert(self.players@[i as int] == ps0[i as int]);
                            assert((ps0[i as int]).wf());
                        }
                        let spd = self.players[i].speed;
                        let vx = scaled_move(pm.dx, spd, mag);
                        let vy = scaled_move(pm.dy, spd, mag);
                        self.players[i].vx = vx;
                        self.players[i].vy = vy;
                        self.players[i].remaining_distance = pm.distance;
                    }
                }
            }
            proof {
                assert(self.players@[i as int] == applied_move(ps0[i as int], in0[i as int]));
            }
            i = i + 1;
        }
        proof {
            assert forall|a: int, b: int| 0 <= a < b < self.players@.len() implies
                self.players@[a].id != self.players@[b].id by {
                assert(self.players@[a].id == ps0[a].id);
                assert(self.players@[b].id == ps0[b].id);
            }
        }
    }

    /// One simulation tick: move every player at the speed its score
    /// derives, then resolve player–dot collisions, then player–player
    /// collisions, then count the tick.  The ordering is load-bearing: a
    /// player that grows by eating a dot can consume a player in the same
    /// tick's player pass.
    pub fn step(&mut self, delta_time_ms: u64)
        requires
            old(self).wf(),
            0 < delta_time_ms <= DT_LIMIT,
            old(self).tick < u64::MAX,
        ensures
            final(self).wf(),
            final(self).tick == old(self).tick + 1,
            final(self).status == old(self).status,
            final(self).constants == old(self).constants,
            final(self).next_dot_id == old(self).next_dot_id,
            ({
                let base = old(self).constants.move_speed_base as int;
                let fr = old(self).constants.collide_size_fraction as int;
                let ps1 = after_moves(old(self).players@, base, delta_time_ms as int);
                let ps2 = Seq::new(ps1.len(), |i: int| grown(ps1[i], dot_gain(ps1, old(self).dots@, i), base));
                &&& final(self).players@ == pp_survivors_upto(ps2, fr, base, ps2.len() as int)
                &&& final(self).dots@ == dots_kept_upto(ps1, old(self).dots@, old(self).dots@.len() as int)
                &&& final(self).player_inputs@ == kept_upto(old(self).player_inputs@, ps2, fr, ps2.len() as int)
                &&& final(self).ready_players@ == kept_upto(old(self).ready_players@, ps2, fr, ps2.len() as int)
            }),
            forall|i: int| 0 <= i < final(self).players@.len() ==>
                (#[trigger] final(self).players@[i]).radius
                    == radius_for_score(final(self).players@[i].score as nat, BASE_RADIUS as int),
            forall|i: int| 0 <= i < final(self).players@.len() ==>
                (#[trigger] final(self).players@[i]).speed
                    == speed_for_score(final(self).players@[i].score as nat, old(self).constants.move_speed_base as int),
    {
        let ghost ps0 = self.players@;
        let ghost dt = delta_time_ms as int;
        let ghost basei = self.constants.move_speed_base as int;
        let n = self.players.len();
        let mut i: usize = 0;
        while i < n
            invariant
                old(self).wf(),
                ps0 == old(self).players@,
                0 < delta_time_ms <= DT_LIMIT,
                dt == delta_time_ms as int,
                basei == old(self).constants.move_speed_base as int,
                n == ps0.len(),
                i <= n,
                self.players@.len() == n,
                self.tick == old(self).tick,
                self.status == old(self).status,
                self.constants == old(self).constants,
                self.dots@ == old(self).dots@,
                self.next_dot_id == old(self).next_dot_id,
                self.ready_players@ == old(self).ready_players@,
                self.player_inputs@ == old(self).player_inputs@,
                forall|k: int| 0 <= k < i ==> self.players@[k]
                    == moved_player(ps0[k], speed_for_score(ps0[k].score as nat, basei), dt),
                forall|k: int| i <= k < n ==> self.players@[k] == ps0[k],
                forall|k: int| 0 <= k < i ==> (#[trigger] self.players@[k]).wf(),
                forall|k: int| 0 <= k < i ==> derived_ok(#[trigger] self.players@[k], basei),
            decreases n - i,
        {
            proof {
                assert((ps0[i as int]).wf());
                assert(derived_ok(ps0[i as int], basei));
            }
            let score = self.players[i].score;
            let base = self.constants.move_speed_base;
            let spd = calculate_speed_from_score(score, base);
            self.players[i].speed = spd;
            proof {
                assert(self.players@[i as int] == ps0[i as int]);
            }
            update_position(&mut self.players[i], spd, delta_time_ms);
            i = i + 1;
        }
        proof {
            assert forall|a: int, b: int| 0 <= a < b < self.players@.len() implies
                self.players@[a].id != self.players@[b].id by {
                assert(self.players@[a].id == ps0[a].id);
                assert(self.players@[b].id == ps0[b].id);
            }
            assert(self.players@ =~= after_moves(ps0, basei, dt));
        }
        let ghost ps1 = self.players@;
        let ghost ds0 = self.dots@;
        self.handle_player_dot_collision();
        proof {
            assert(self.players@ =~= Seq::new(ps1.len(), |i: int| grown(ps1[i], dot_gain(ps1, ds0, i), basei)));
        }
        self.handle_player_player_collision();
        self.tick = self.tick + 1;
    }
}


/// A player is marked consumed exactly when some other player overlaps it
/// with the required size advantage.
pub proof fn lemma_eaten_iff_dominated(ps: Seq<PlayerSpec>, frac: int, j: int)
    requires
        0 <= j < ps.len(),
    ensures
        (player_eater(ps, j, frac) >= 0)
            <==> exists|i: int| 0 <= i < ps.len() && i != j && dominates(#[trigger] ps[i], ps[j], frac),
{
    lemma_first_dominator_char(ps, frac, j, 0);
}

/// `first_dominator_from(ps, j, frac, k)` finds a dominator at or after `k`
/// exactly when one exists there.
proof fn lemma_first_dominator_char(ps: Seq<PlayerSpec>, frac: int, j: int, k: int)
    requires
        0 <= j < ps.len(),
        0 <= k,
    ensures
        (first_dominator_from(ps, j, frac, k) >= 0)
            <==> exists|i: int| k <= i < ps.len() && i != j && dominates(#[trigger] ps[i], ps[j], frac),
        first_dominator_from(ps, j, frac, k) >= 0 || first_dominator_from(ps, j, frac, k) == -1,
        first_dominator_from(ps, j, frac, k) >= 0 ==> {
            let e = first_dominator_from(ps, j, frac, k);
            &&& k <= e < ps.len()
            &&& e != j
            &&& dominates(ps[e], ps[j], frac)
        },
    decreases ps.len() - k,
{
    if k < ps.len() {
        if k != j && dominates(ps[k], ps[j], frac) {
        } else {
            lemma_first_dominator_char(ps, frac, j, k + 1);
        }
    }
}

/// A player no other player dominates survives the player pass: its id is
/// still present afterwards, carried by its grown self.
pub proof fn lemma_undominated_survives(ps: Seq<PlayerSpec>, frac: int, base_speed: int, j: int)
    requires
        0 <= j < ps.len(),
        forall|i: int| 0 <= i < ps.len() && i != j ==> !dominates(#[trigger] ps[i], ps[j], frac),
    ensures
        player_eater(ps, j, frac) == -1,
        contains_player(pp_survivors_upto(ps, frac, base_speed, ps.len() as int), ps[j].id),
{
    lemma_first_dominator_char(ps, frac, j, 0);
    lemma_survivor_carries(ps, frac, base_speed, j, ps.len() as int);
}

/// For `m` beyond `j`, the survivor table of the first `m` players carries
/// the grown form of an un-consumed player `j`.
proof fn lemma_survivor_carries(ps: Seq<PlayerSpec>, frac: int, base_speed: int, j: int, m: int)
    requires
        0 <= j < m <= ps.len(),
        player_eater(ps, j, frac) == -1,
    ensures
        exists|k: int| 0 <= k < pp_survivors_upto(ps, frac, base_speed, m).len()
            && #[trigger] pp_survivors_upto(ps, frac, base_speed, m)[k]
                == grown(ps[j], pp_gain(ps, frac, j), base_speed),
        contains_player(pp_survivors_upto(ps, frac, base_speed, m), ps[j].id),
    decreases m,
{
    let sv = pp_survivors_upto(ps, frac, base_speed, m);
    if j == m - 1 {
        assert(sv[sv.len() - 1] == grown(ps[j], pp_gain(ps, frac, j), base_speed));
    } else {
        lemma_survivor_carries(ps, frac, base_speed, j, m - 1);
        let pre = pp_survivors_upto(ps, frac, base_speed, m - 1);
        let k = choose|k: int| 0 <= k < pre.len()
            && #[trigger] pre[k] == grown(ps[j], pp_gain(ps, frac, j), base_speed);
        assert(sv[k] == grown(ps[j], pp_gain(ps, frac, j), base_speed));
    }
    let k = choose|k: int| 0 <= k < sv.len()
        && #[trigger] sv[k] == grown(ps[j], pp_gain(ps, frac, j), base_speed);
    assert(sv[k].id == ps[j].id);
}

/// A consumed player's id is gone from the survivor table.
pub proof fn lemma_consumed_removed(ps: Seq<PlayerSpec>, frac: int, base_speed: int, j: int)
    requires
        distinct_ids(ps),
        0 <= j < ps.len(),
        player_eater(ps, j, frac) >= 0,
    ensures
        !contains_player(pp_survivors_upto(ps, frac, base_speed, ps.len() as int), ps[j].id),
{
    lemma_removed_upto(ps, frac, base_speed, j, ps.len() as int);
}

/// No entry of the survivor table of the first `m` players carries the id
/// of a consumed player.
proof fn lemma_removed_upto(ps: Seq<PlayerSpec>, frac: int, base_speed: int, j: int, m: int)
    requires
        distinct_ids(ps),
        0 <= j < ps.len(),
        player_eater(ps, j, frac) >= 0,
        0 <= m <= ps.len(),
    ensures
        forall|k: int| 0 <= k < pp_survivors_upto(ps, frac, base_speed, m).len()
            ==> (#[trigger] pp_survivors_upto(ps, frac, base_speed, m)[k]).id != ps[j].id,
    decreases m,
{
    if m > 0 {
        lemma_removed_upto(ps, frac, base_speed, j, m - 1);
        let pre = pp_survivors_upto(ps, frac, base_speed, m - 1);
        let sv = pp_survivors_upto(ps, frac, base_speed, m);
        assert forall|k: int| 0 <= k < sv.len() implies
            (#[trigger] sv[k]).id != ps[j].id by {
            if k < pre.len() {
                assert(sv[k] == pre[k]);
            } else {
                lemma_first_dominator_char(ps, frac, m - 1, 0);
                if player_eater(ps, m - 1, frac) >= 0 {
                    assert(sv == pre);
                } else {
                    assert(sv == pre.push(grown(ps[m - 1], pp_gain(ps, frac, m - 1), base_speed)));
                    assert(k == pre.len());
                    assert(sv[k] == grown(ps[m - 1], pp_gain(ps, frac, m - 1), base_speed));
                    assert(player_eater(ps, m - 1, frac) == -1);
                    assert(m - 1 != j);
                    assert(ps[m - 1].id != ps[j].id);
                }
            }
        }
    }
}

/// When two players overlap and neither out-sizes the other by the
/// size-advantage fraction, neither is removed by the player pass.
pub proof fn lemma_stalemate_keeps_both(ps: Seq<PlayerSpec>, frac: int, base_speed: int, a: int, b: int)
    requires
        0 <= a < ps.len(),
        0 <= b < ps.len(),
        a != b,
        players_overlap(ps[a], ps[b]),
        !dominates(ps[a], ps[b], frac),
        !dominates(ps[b], ps[a], frac),
        forall|i: int| 0 <= i < ps.len() && i != a && i != b
            ==> !dominates(#[trigger] ps[i], ps[a], frac) && !dominates(#[trigger] ps[i], ps[b], frac),
    ensures
        contains_player(pp_survivors_upto(ps, frac, base_speed, ps.len() as int), ps[a].id),
        contains_player(pp_survivors_upto(ps, frac, base_speed, ps.len() as int), ps[b].id),
{
    lemma_undominated_survives(ps, frac, base_speed, a);
    lemma_undominated_survives(ps, frac, base_speed, b);
}

/// Growing by nothing changes nothing, as long as the derived fields agree
/// with the score.
pub proof fn lemma_grown_zero(p: PlayerSpec, base_speed: int)
    requires
        derived_ok(p, base_speed),
    ensures
        grown(p, 0, base_speed) == p,
{
}

/// In a two-player world where the first dominates the second and not the
/// other way round, the pass leaves exactly the first player, its score
/// increased by exactly the second's pre-consumption score.
pub proof fn lemma_two_player_consumption(ps: Seq<PlayerSpec>, frac: int, base_speed: int)
    requires
        ps.len() == 2,
        dominates(ps[0], ps[1], frac),
        !dominates(ps[1], ps[0], frac),
        ps[0].score + ps[1].score <= u64::MAX,
    ensures
        ({
            let sv = pp_survivors_upto(ps, frac, base_speed, 2);
            &&& sv.len() == 1
            &&& sv[0].id == ps[0].id
            &&& sv[0].score == ps[0].score + ps[1].score
        }),
{
    assert(first_dominator_from(ps, 0, frac, 2) == -1);
    assert(first_dominator_from(ps, 0, frac, 1) == -1);
    assert(player_eater(ps, 0, frac) == -1);
    assert(player_eater(ps, 1, frac) == 0);
    assert(pp_gain_upto(ps, frac, 0, 0) == 0);
    assert(pp_gain_upto(ps, frac, 0, 1) == 0);
    assert(pp_gain(ps, frac, 0) == ps[1].score as nat);
    let sv = pp_survivors_upto(ps, frac, base_speed, 2);
    assert(pp_survivors_upto(ps, frac, base_speed, 0) == Seq::<PlayerSpec>::empty());
    assert(pp_survivors_upto(ps, frac, base_speed, 1)
        == Seq::<PlayerSpec>::empty().push(grown(ps[0], pp_gain(ps, frac, 0), base_speed)));
    assert(sv == pp_survivors_upto(ps, frac, base_speed, 1));
    assert(sv[0] == grown(ps[0], pp_gain(ps, frac, 0), base_speed));
    assert(sv[0].score == sat_add_u64(ps[0].score as nat, ps[1].score as nat));
}

/// A dot is consumed exactly when some player overlaps it.
pub proof fn lemma_dot_eaten_iff_overlapped(ps: Seq<PlayerSpec>, d: Dot)
    ensures
        (dot_eater(ps, d) >= 0) <==> exists|i: int| 0 <= i < ps.len() && player_dot_overlap(#[trigger] ps[i], d),
        dot_eater(ps, d) >= 0 ==> {
            let e = dot_eater(ps, d);
            &&& 0 <= e < ps.len()
            &&& player_dot_overlap(ps[e], d)
            &&& forall|i: int| 0 <= i < e ==> !player_dot_overlap(#[trigger] ps[i], d)
        },
{
    lemma_first_overlapper_char(ps, d, 0);
}

proof fn lemma_first_overlapper_char(ps: Seq<PlayerSpec>, d: Dot, k: int)
    requires
        0 <= k,
    ensures
        (first_overlapper_from(ps, d, k) >= 0)
            <==> exists|i: int| k <= i < ps.len() && player_dot_overlap(#[trigger] ps[i], d),
        first_overlapper_from(ps, d, k) >= 0 || first_overlapper_from(ps, d, k) == -1,
        first_overlapper_from(ps, d, k) >= 0 ==> {
            let e = first_overlapper_from(ps, d, k);
            &&& k <= e < ps.len()
            &&& player_dot_overlap(ps[e], d)
            &&& forall|i: int| k <= i < e ==> !player_dot_overlap(#[trigger] ps[i], d)
        },
    decreases ps.len() - k,
{
    if k < ps.len() {
        if player_dot_overlap(ps[k], d) {
        } else {
            lemma_first_overlapper_char(ps, d, k + 1);
        }
    }
}

/// The dot pass never adds dots: at most the first `m` dots survive it.
pub proof fn lemma_dot_count_never_grows(ps: Seq<PlayerSpec>, ds: Seq<Dot>, m: int)
    requires
        0 <= m,
    ensures
        dots_kept_upto(ps, ds, m).len() <= m,
    decreases m,
{
    if m > 0 {
        lemma_dot_count_never_grows(ps, ds, m - 1);
    }
}

/// Consuming one dot removes exactly that dot and credits exactly its score
/// to its consumer: in a world with a single dot that player `e` consumes,
/// the dot pass empties the dot table, gives `e` exactly the dot's score,
/// and gives every other player nothing.
pub proof fn lemma_single_dot_consumption(ps: Seq<PlayerSpec>, ds: Seq<Dot>)
    requires
        ds.len() == 1,
        dot_eater(ps, ds[0]) >= 0,
    ensures
        dots_kept_upto(ps, ds, 1) == Seq::<Dot>::empty(),
        dot_gain(ps, ds, dot_eater(ps, ds[0])) == ds[0].score as nat,
        forall|i: int| 0 <= i < ps.len() && i != dot_eater(ps, ds[0]) ==> dot_gain(ps, ds, i) == 0,
{
    assert forall|i: int| 0 <= i < ps.len() && i != dot_eater(ps, ds[0]) implies dot_gain(ps, ds, i) == 0 by {
        assert(dot_gain_upto(ps, ds, i, 0) == 0);
    }
    assert(dot_gain_upto(ps, ds, dot_eater(ps, ds[0]), 0) == 0);
    assert(dots_kept_upto(ps, ds, 0) == Seq::<Dot>::empty());
}

} // verus!
