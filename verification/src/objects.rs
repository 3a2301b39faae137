//! Entity types of the world model: players and food dots, with the bounds
//! every entity of a well-formed world obeys.

use vstd::prelude::*;
use crate::{COORD_LIMIT, RADIUS_LIMIT, SPEED_LIMIT, DIST_LIMIT, WORLD_SIZE};

verus! {

/// Player state carried by the server and sent to clients.
///
/// Geometry is in milli-units: `x`, `y`, `radius`, `speed`, `vx`, `vy` and
/// `remaining_distance` are fixed-point with 1000 milli-units per world unit.
pub struct PlayerSpec {
    pub id: u64,
    pub name: String,
    pub x: i64,
    pub y: i64,
    pub radius: i64,
    pub score: u64,
    pub speed: i64,
    pub sequence_number: u64,
    pub remaining_distance: i64,
    pub vx: i64,
    pub vy: i64,
}

impl PlayerSpec {
    /// Bounds under which all arithmetic of the simulation stays exact.
    pub open spec fn wf(&self) -> bool {
        &&& 0 <= self.x <= COORD_LIMIT
        &&& 0 <= self.y <= COORD_LIMIT
        &&& 0 < self.radius <= RADIUS_LIMIT
        &&& 0 <= self.speed <= SPEED_LIMIT
        &&& -SPEED_LIMIT <= self.vx <= SPEED_LIMIT
        &&& -SPEED_LIMIT <= self.vy <= SPEED_LIMIT
        &&& 0 <= self.remaining_distance <= DIST_LIMIT
    }

    /// A field-for-field copy of this player.
    pub fn duplicate(&self) -> (r: PlayerSpec)
        ensures
            r == *self,
    {
        PlayerSpec {
            id: self.id,
            name: self.name.clone(),
            x: self.x,
            y: self.y,
            radius: self.radius,
            score: self.score,
            speed: self.speed,
            sequence_number: self.sequence_number,
            remaining_distance: self.remaining_distance,
            vx: self.vx,
            vy: self.vy,
        }
    }
}

/// A food dot, one of three fixed tiers (score, color, radius).
pub struct Dot {
    pub id: u64,
    pub x: i64,
    pub y: i64,
    pub radius: i64,
    pub color: (u8, u8, u8),
    pub score: u64,
}

impl Dot {
    /// Every dot belongs to one of the three fixed tiers.
    pub open spec fn tier_ok(&self) -> bool {
        ||| (self.score == 2 && self.color == (100u8, 150u8, 255u8) && self.radius == 4000)
        ||| (self.score == 5 && self.color == (255u8, 255u8, 100u8) && self.radius == 6000)
        ||| (self.score == 10 && self.color == (255u8, 100u8, 100u8) && self.radius == 8000)
    }

    pub open spec fn wf(&self) -> bool {
        &&& 0 <= self.x <= WORLD_SIZE
        &&& 0 <= self.y <= WORLD_SIZE
        &&& self.tier_ok()
    }

    /// A field-for-field copy of this dot.
    pub fn duplicate(&self) -> (r: Dot)
        ensures
            r == *self,
    {
        Dot { id: self.id, x: self.x, y: self.y, radius: self.radius, color: self.color, score: self.score }
    }
}

} // verus!
