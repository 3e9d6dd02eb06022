//! A client.

use super::types::{Matrix, SerializablePlayer};
use vstd::prelude::*;

verus! {

/// What a client says of itself. It does not know its number: the server goes by the
/// connection.
pub fn ball_control_system(transform: Matrix) -> (player: SerializablePlayer)
    ensures
        player == (SerializablePlayer { id: 0, transform }),
{
    SerializablePlayer { id: 0, transform }
}

} // verus!
