//! What can go wrong between rooms.

use vstd::prelude::*;

verus! {

#[derive(Debug, Copy, Clone, PartialEq, Eq, Structural)]
pub enum WorldError {
    /// A floor or a room that the dungeon does not have.
    InvalidRoomReference,
    /// A room entered from a side on which it has no entrance.
    NoMatchingEntrance,
}

} // verus!
