//! The chronicle: an append-only, causally linked record of why each committed change
//! happened. Entries are written after commit, never before.

use crate::kernel::fact::{Cause, FactType};
use crate::kernel::identity::EntityId;
use vstd::prelude::*;

verus! {

/// A single append-only chronicle entry: a committed change and the cause that produced it.
#[derive(Clone, Copy, PartialEq, Eq, Debug)]
pub struct ChronicleEntry {
    /// The tick at which the change was committed.
    pub tick: u64,
    /// The entity the change concerns.
    pub subject: EntityId,
    /// The fact type that changed.
    pub fact_type: FactType,
    /// The cause the producing proposal asserted.
    pub cause: Cause,
}

impl ChronicleEntry {
    /// Record that `subject`'s `fact_type` changed at `tick`, for the given `cause`.
    pub fn new(tick: u64, subject: EntityId, fact_type: FactType, cause: Cause) -> (e: ChronicleEntry)
        ensures
            e == (ChronicleEntry { tick, subject, fact_type, cause }),
    {
        ChronicleEntry { tick, subject, fact_type, cause }
    }

    /// The tick at which the recorded change was committed.
    pub fn tick(&self) -> (r: u64)
        ensures
            r == self.tick,
    {
        self.tick
    }

    /// The entity the recorded change concerns.
    pub fn subject(&self) -> (r: EntityId)
        ensures
            r == self.subject,
    {
        self.subject
    }

    /// The fact type that changed.
    pub fn fact_type(&self) -> (r: FactType)
        ensures
            r == self.fact_type,
    {
        self.fact_type
    }

    /// The event cause the producing proposal asserted.
    pub fn cause(&self) -> (r: Cause)
        ensures
            r == self.cause,
    {
        self.cause
    }
}

} // verus!
