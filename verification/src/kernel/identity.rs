//! Permanent identity: entity ids are issued once and never reused, so a dead entity leaves
//! a tombstone rather than a freed slot and no two entities ever share one history.

use vstd::prelude::*;

verus! {

/// A permanent, globally-unique entity identifier that is never reused.
#[derive(Clone, Copy, PartialEq, Eq, PartialOrd, Ord, Hash, Debug, Structural)]
pub struct EntityId(pub u64);

impl EntityId {
    /// Wrap a raw id value.
    pub fn from_raw(raw: u64) -> (id: EntityId)
        ensures
            id.0 == raw,
    {
        EntityId(raw)
    }

    /// The raw numeric value of this id.
    pub fn raw(&self) -> (r: u64)
        ensures
            r == self.0,
    {
        self.0
    }
}

} // verus!
