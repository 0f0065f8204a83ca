//! The player identity the core works with.

use vstd::prelude::*;

verus! {

/// An opaque, externally supplied player identity. The chat-platform layer
/// hands the core the platform's stable numeric user id; the core never
/// inspects it beyond equality.
#[derive(Clone, Copy, PartialEq, Eq, Structural, Debug)]
pub struct Player {
    pub id: u64,
}

impl Player {
    /// Wraps a stable numeric identity.
    pub fn new(id: u64) -> (r: Player)
        ensures
            r.id == id,
    {
        Player { id }
    }
}

} // verus!
