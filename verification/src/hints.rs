//! Server-issued hints. The hint queue holds only hints that concern this
//! agent's own world, are not yet found, and are flagged important; it
//! never holds two hints for the same (player, location) identity.

use vstd::prelude::*;

verus! {

use crate::LocationID;

/// A hint: a pointer at one location of one player's world.
#[derive(Clone, Copy, Debug, PartialEq, Eq, Structural)]
pub struct Hint {
    /// The slot whose world holds the hinted location.
    pub player: i32,
    /// The hinted location.
    pub location: LocationID,
    /// Whether the hinted location was already collected.
    pub found: bool,
    /// Whether the hint was flagged as a priority.
    pub is_important: bool,
}

/// Two hints with one identity: same player, same location.
pub open spec fn same_identity(a: Hint, b: Hint) -> bool {
    a.player == b.player && a.location == b.location
}

/// No two queue entries share an identity.
pub open spec fn hints_unique(s: Seq<Hint>) -> bool {
    forall|i: int, j: int|
        0 <= i < j < s.len() ==> !same_identity(#[trigger] s[i], #[trigger] s[j])
}

/// A hint the queue may hold: about this agent's own world, not yet
/// found, and important.
pub open spec fn hint_wanted(h: Hint, slot_id: i32) -> bool {
    h.player == slot_id && !h.found && h.is_important
}

/// All queue entries are wanted.
pub open spec fn hints_wanted(s: Seq<Hint>, slot_id: i32) -> bool {
    forall|i: int| 0 <= i < s.len() ==> hint_wanted(#[trigger] s[i], slot_id)
}

impl Hint {
    /// Whether the queue may hold this hint for the given slot.
    pub fn wanted(&self, slot_id: i32) -> (w: bool)
        ensures
            w == hint_wanted(*self, slot_id),
    {
        self.player == slot_id && !self.found && self.is_important
    }
}

} // verus!
