//! Deterministic scheduling: execution order is derived from declared read/write sets, never
//! from wall-clock or hash-map iteration.

use vstd::prelude::*;

verus! {

/// A system's declared read and write sets, from which the scheduler derives a
/// deterministic order. Empty until the dependency scheduler lands.
#[derive(Clone, PartialEq, Eq, Debug, Default)]
pub struct ReadWriteSet {}

impl ReadWriteSet {
    /// An empty declaration: a system that reads and writes nothing.
    pub fn empty() -> (r: ReadWriteSet)
        ensures
            r == (ReadWriteSet {}),
    {
        ReadWriteSet {}
    }
}

} // verus!
