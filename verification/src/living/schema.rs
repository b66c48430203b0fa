//! Fact-type declarations owned (or read) by the Living Systems domain.
//!
//! Living owns the vital state of organisms. It reads the physical environment through the
//! physical domain's published fact-type ids, never through a call into that domain.

use crate::kernel::fact::FactType;
use vstd::prelude::*;

verus! {

/// An organism's core body heat, in centidegrees Celsius. Owned by Living Systems: the
/// organism defends it against the environment it lives in.
#[verifier::allow_in_spec]
pub fn body_heat() -> FactType
    returns
        FactType("living.vital.body_heat"),
{
    FactType("living.vital.body_heat")
}

/// The ambient temperature of a region, read by id from the physical domain that owns it.
#[verifier::allow_in_spec]
pub fn ambient_temperature() -> FactType
    returns
        FactType("physical.environment.temperature"),
{
    FactType("physical.environment.temperature")
}

/// An entity's immediate container, read by id from the physical domain that owns it: how an
/// organism finds the region it lives in.
#[verifier::allow_in_spec]
pub fn contained_in() -> FactType
    returns
        FactType("physical.space.contained_in"),
{
    FactType("physical.space.contained_in")
}

/// The floor below which body heat is physically meaningless: absolute zero in centidegrees
/// Celsius. The Validate stage rejects any resolved body heat beneath it.
pub const BODY_HEAT_FLOOR_CENTI_C: i64 = -27315;

} // verus!
