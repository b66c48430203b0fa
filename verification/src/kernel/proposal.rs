//! Proposals, the tick's currency: systems never mutate, they propose. Every proposal names
//! the fact it targets, the change it requests, the basis tick it read, and its cause.

use crate::kernel::fact::{Cause, FactKey, SystemId};
use crate::kernel::value::Value;
use vstd::prelude::*;

verus! {

/// The kind of change a proposal requests against a fact.
#[derive(Clone, Copy, PartialEq, Eq, Debug)]
pub enum Change {
    /// Bring a fact into existence with an initial value.
    Create(Value),
    /// Set the fact to an absolute value.
    Assign(Value),
    /// Add a signed amount to an integer fact (fixed-point deltas compose by summation).
    Delta(i64),
    /// Remove the fact; identity is retained via tombstoning.
    Tombstone,
    /// Add a member to a set-valued (cardinality-many) fact.
    Add(Value),
    /// Remove a member from a set-valued (cardinality-many) fact.
    Remove(Value),
}

/// One system's requested change to one fact, with its basis and cause.
#[derive(Clone, Copy, PartialEq, Eq, Debug)]
pub struct Proposal {
    /// The system making the proposal.
    pub system: SystemId,
    /// The fact this proposal targets.
    pub target: FactKey,
    /// The committed tick the system read as its basis (conflict detection).
    pub basis_tick: u64,
    /// The requested change.
    pub change: Change,
    /// The event this proposal asserts it participates in.
    pub cause: Cause,
}

impl Proposal {
    /// Construct a proposal.
    pub fn new(system: SystemId, target: FactKey, basis_tick: u64, change: Change, cause: Cause) -> (p:
        Proposal)
        ensures
            p == (Proposal { system, target, basis_tick, change, cause }),
    {
        Proposal { system, target, basis_tick, change, cause }
    }
}

} // verus!
