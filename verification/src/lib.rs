//! Authoritative core of a real-time multiplayer arena game.
//!
//! World geometry, radii and speeds are carried as fixed-point integers in
//! milli-units (one world unit is 1000 milli-units), so every rule of the
//! simulation is exact integer arithmetic.

use vstd::prelude::*;

pub mod game_state;
pub mod http;
pub mod mechanics;
pub mod names;
pub mod objects;
pub mod protocol;
pub mod rng;
pub mod session;

verus! {

/// Number of milli-units in one world unit.
pub const SCALE: i64 = 1000;

/// Width and height of the square world, in milli-units (2000 world units).
pub const WORLD_SIZE: i64 = 2_000_000;

/// Radius of a freshly spawned player (10 world units), in milli-units.
pub const BASE_RADIUS: i64 = 10_000;

/// Largest base speed a world's constants may carry, in milli-units per second.
pub const SPEED_LIMIT: i64 = 1_000_000_000;

/// Largest remaining distance a single move command may carry, in milli-units.
pub const DIST_LIMIT: i64 = 1_000_000_000_000;

/// Largest magnitude of a move command's direction components, in milli-units.
pub const DIR_LIMIT: i64 = 1_000_000_000;

/// Largest radius any player can reach: a base radius plus the root of the
/// largest possible score still stays below this.
pub const RADIUS_LIMIT: i64 = 5_000_000_000_000;

/// Largest coordinate a player can reach, clamping included.
pub const COORD_LIMIT: i64 = 10_000_000_000_000;

/// Largest tick interval, in milliseconds.
pub const DT_LIMIT: u64 = 1_000_000;

/// Largest size-advantage fraction (fixed-point, `SCALE` means 1.0).
pub const FRAC_LIMIT: i64 = 1_000_000;

/// Current state of the game's start/play state machine.
#[derive(Clone, Copy, Debug, PartialEq, Eq, Structural)]
pub enum GameStatus {
    /// Start screen; waiting for every connected player to signal ready.
    WaitingToStart,
    /// The simulation is running.
    Playing,
    /// Reserved terminal state; no rule reaches it yet.
    GameOver,
}

/// Core game constants, fixed for the life of a server process and sent to
/// each client once at connect time.
#[derive(Clone, Copy, Debug)]
pub struct GameConstant {
    /// Tick interval in milliseconds.
    pub tick_interval_ms: u64,
    /// Radius ratio (fixed-point, `SCALE` is 1.0) one player must exceed
    /// another by to consume it.
    pub collide_size_fraction: i64,
    /// Default player speed in milli-units per second.
    pub move_speed_base: i64,
    /// Default dot radius in milli-units.
    pub dot_radius: i64,
}

impl GameConstant {
    /// Machine-limit bounds under which all tick arithmetic is exact.
    pub open spec fn wf(&self) -> bool {
        &&& 0 < self.tick_interval_ms <= DT_LIMIT
        &&& 0 <= self.collide_size_fraction <= FRAC_LIMIT
        &&& 0 <= self.move_speed_base <= SPEED_LIMIT
        &&& 0 <= self.dot_radius <= RADIUS_LIMIT
    }
}

/// A point-in-time copy of the whole world, the only payload ever broadcast
/// to clients.
pub struct GameSnapshot {
    pub tick: u64,
    pub status: GameStatus,
    pub players: Vec<objects::PlayerSpec>,
    pub dots: Vec<objects::Dot>,
    pub constants: GameConstant,
}

} // verus!
