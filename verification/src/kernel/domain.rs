//! Domain registration and the owned-fact rules the kernel consults.
//!
//! A domain owns a set of fact types and supplies the systems that propose changes to them,
//! the composition rule that resolves competing proposals against each owned fact, and the
//! coherence checks that validate a resolved value. The kernel calls these; a domain never
//! writes another domain's facts.

use crate::kernel::fact::{Cardinality, FactType};
use crate::kernel::proposal::Change;
use crate::kernel::system::System;
use crate::kernel::value::Value;
use vstd::prelude::*;

verus! {

/// The outcome of composing the proposals for one fact.
#[derive(Clone, Copy, PartialEq, Eq, Debug, Structural)]
pub enum Resolved {
    /// The fact resolves to this committed value.
    Write(Value),
    /// The fact is removed (tombstoned).
    Tombstone,
}

/// A resolution failure: competing proposals with no declared way to compose. Surfaces as
/// an aborted tick.
#[derive(Clone, Copy, PartialEq, Eq, Debug)]
pub struct ResolveError {
    /// A human-readable reason resolution could not proceed.
    pub reason: &'static str,
}

impl ResolveError {
    /// Fail resolution with a reason.
    pub fn new(reason: &'static str) -> (e: ResolveError)
        ensures
            e.reason == reason,
    {
        ResolveError { reason }
    }
}

/// A coherence-check failure during the Validate stage. Aborts the tick.
#[derive(Clone, Copy, PartialEq, Eq, Debug)]
pub struct ValidationError {
    /// A human-readable reason the resolved value was rejected.
    pub reason: &'static str,
}

impl ValidationError {
    /// Reject a resolved value with a reason.
    pub fn new(reason: &'static str) -> (e: ValidationError)
        ensures
            e.reason == reason,
    {
        ValidationError { reason }
    }
}

/// A list of proposed changes to one fact, in deterministic order.
pub type ChangeList = Seq<Change>;

/// A domain plugged into the kernel: what it owns, its systems, and its owned-fact rules.
pub trait Domain {
    /// The domain's stable name (e.g. `"physical"`).
    fn name(&self) -> &'static str;

    /// The fact types this domain owns.
    spec fn owned(&self, fact_type: FactType) -> bool;

    /// Whether this domain owns `fact_type` (one fact, one owner).
    fn owns(&self, fact_type: FactType) -> (r: bool)
        ensures
            r == self.owned(fact_type),
    ;

    /// The cardinality this domain declares for a fact type.
    spec fn declared_cardinality(&self, fact_type: FactType) -> Cardinality;

    /// The cardinality of an owned fact type: [`Cardinality::One`] for a single-valued fact,
    /// [`Cardinality::Many`] for a set-valued one.
    fn cardinality(&self, fact_type: FactType) -> (c: Cardinality)
        ensures
            c == self.declared_cardinality(fact_type),
    ;

    /// The systems this domain contributes to the tick.
    fn systems(&self) -> Vec<Box<dyn System>>;

    /// Compose competing proposals against one owned fact into a single resolved outcome.
    /// `current` is the committed value, if any; `changes` are the proposed changes to this
    /// fact in deterministic order. An undeclared conflict returns `Err`: resolution never
    /// improvises.
    fn compose(&self, fact_type: FactType, current: Option<Value>, changes: &[Change]) -> (r:
        Result<Resolved, ResolveError>)
        ensures
            r == self.composed(fact_type, current, changes@),
    ;

    /// What this domain composes from a committed value and a list of changes: a function of
    /// those alone.
    spec fn composed(&self, fact_type: FactType, current: Option<Value>, changes: ChangeList) -> Result<
        Resolved,
        ResolveError,
    >;

    /// The verdict this domain gives on a resolved value for one of its facts.
    spec fn validated(&self, fact_type: FactType, value: Resolved) -> Result<(), ValidationError>;

    /// Validate a resolved value for an owned fact before commit. Returning `Err` aborts the
    /// tick; a domain with no invariant to enforce accepts everything.
    fn validate(&self, fact_type: FactType, value: &Resolved) -> (r: Result<(), ValidationError>)
        ensures
            r == self.validated(fact_type, *value),
    ;
}

} // verus!
