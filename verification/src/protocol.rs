//! Wire message types: two closed sums, one for each direction of the
//! connection.  Directions and distances are fixed-point milli-units.

use vstd::prelude::*;
use crate::{GameConstant, GameSnapshot};

verus! {

/// Deprecated continuous input command, kept for wire compatibility; it must
/// never affect movement.
pub struct UserInput {
    pub dx: i64,
    pub dy: i64,
    pub sequence_number: u64,
}

/// Messages sent from a client to the server.
pub enum ClientMessage {
    /// A client wants to be known under a display name.
    Join { name: String },
    /// Deprecated continuous movement input; accepted and ignored.
    Input { input: UserInput },
    /// Discrete movement: travel `distance` along `(dx, dy)`.
    Move { dx: i64, dy: i64, distance: i64 },
    /// The player is ready to start the game.
    Ready,
    /// The client disconnects; intercepted by the session layer.
    Quit,
}

/// Sent once, immediately after a session is admitted.
pub struct WelcomeMessage {
    pub player_id: u64,
    pub constants: GameConstant,
}

/// The per-tick broadcast carrying a full snapshot.
pub struct StateUpdateMessage {
    pub snapshot: GameSnapshot,
}

/// Sent before the server unilaterally closes a session.
pub struct ByeMessage {
    pub reason: String,
}

/// Messages sent from the server to a client.
pub enum ServerMessage {
    Welcome(WelcomeMessage),
    StateUpdate(StateUpdateMessage),
    Bye(ByeMessage),
}

} // verus!
