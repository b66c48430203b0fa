//! The Living Systems domain.
//!
//! It owns the vital state of organisms, here their body heat, and reads the physical
//! environment by published fact-type id. Domains never import domains: an organism learns
//! where it lives and how warm it is there from committed facts alone.

pub mod composition;
pub mod schema;
pub mod systems;

use crate::kernel::domain::{ChangeList, Domain, ResolveError, Resolved, ValidationError};
use crate::kernel::fact::{type_bytes, Cardinality, FactType, SystemId};
use crate::kernel::proposal::Change;
use crate::kernel::system::{Cadence, System, TickContext};
use crate::kernel::triples::{entities_of_type, Triple};
use crate::kernel::value::Value;
use crate::living::composition::{compose_body_heat, heat_outcome};
use crate::living::schema::{ambient_temperature, body_heat, contained_in, BODY_HEAT_FLOOR_CENTI_C};
use crate::living::systems::thermo_proposals;
use vstd::prelude::*;

verus! {

/// The Living Systems domain, configured by the world's thermoregulation rules.
#[derive(Clone, Copy, PartialEq, Eq, Debug)]
pub struct LivingDomain {
    /// The body heat organisms defend, in centidegrees Celsius.
    pub set_point_centi_c: i64,
    /// How slowly an organism returns to its set point.
    pub warm_response: i64,
    /// How slowly the environment drags body heat toward ambient.
    pub cold_response: i64,
}

impl LivingDomain {
    /// Configure the domain's thermoregulation: the set point organisms defend and how
    /// strongly they respond.
    pub fn new(set_point_centi_c: i64, warm_response: i64, cold_response: i64) -> (d: LivingDomain)
        ensures
            d == (LivingDomain { set_point_centi_c, warm_response, cold_response }),
    {
        LivingDomain { set_point_centi_c, warm_response, cold_response }
    }
}

/// How the living domain composes the proposals against one fact type.
pub open spec fn living_outcome(ft: FactType, current: Option<Value>, cs: Seq<Change>) -> Result<
    Resolved,
    ResolveError,
> {
    if type_bytes(ft) == type_bytes(body_heat()) {
        heat_outcome(current, cs)
    } else {
        Err(ResolveError { reason: "living: fact type not owned by this domain" })
    }
}

/// The coherence check on a resolved body heat: never below absolute zero.
pub open spec fn living_verdict(ft: FactType, value: Resolved) -> Result<(), ValidationError> {
    if type_bytes(ft) == type_bytes(body_heat()) && (value matches Resolved::Write(Value::Int(c))
        && c < BODY_HEAT_FLOOR_CENTI_C) {
        Err(ValidationError { reason: "body heat resolved below absolute zero" })
    } else {
        Ok(())
    }
}

impl Domain for LivingDomain {
    fn name(&self) -> (r: &'static str)
        ensures
            r == "living",
    {
        "living"
    }

    open spec fn owned(&self, fact_type: FactType) -> bool {
        type_bytes(fact_type) == type_bytes(body_heat())
    }

    fn owns(&self, fact_type: FactType) -> (r: bool)
        ensures
            r == (type_bytes(fact_type) == type_bytes(body_heat())),
    {
        fact_type.same(&body_heat())
    }

    fn systems(&self) -> (r: Vec<Box<dyn System>>)
        ensures
            r@.len() == 1,
            r@[0].declared_id() == SystemId("living.thermoregulation"),
            r@[0].declared_cadence() == Cadence::EveryTick,
            r@[0].declared_reads() == seq![contained_in(), ambient_temperature(), body_heat()],
            r@[0].declared_writes() == seq![body_heat()],
            forall|c: Seq<Triple>, ctx: TickContext|
                #[trigger] r@[0].evaluated(c, ctx) == thermo_proposals(
                    systems::Thermoregulation {
                        set_point_centi_c: self.set_point_centi_c,
                        warm_response: self.warm_response,
                        cold_response: self.cold_response,
                    },
                    c,
                    ctx.tick,
                    entities_of_type(c, type_bytes(body_heat())),
                ),
    {
        // One instance for the whole world; it iterates every organism it finds in reality.
        let b: Box<dyn System> = Box::new(
            systems::Thermoregulation::new(
                self.set_point_centi_c,
                self.warm_response,
                self.cold_response,
            ),
        );
        let ghost gb = b;
        assert(gb.declared_id() == SystemId("living.thermoregulation"));
        let out = vec![b];
        assert(out@[0] == gb);
        out
    }

    open spec fn declared_cardinality(&self, fact_type: FactType) -> Cardinality {
        Cardinality::One
    }

    /// Every living fact is single-valued.
    fn cardinality(&self, fact_type: FactType) -> (c: Cardinality) {
        Cardinality::One
    }

    open spec fn validated(&self, fact_type: FactType, value: Resolved) -> Result<(), ValidationError> {
        living_verdict(fact_type, value)
    }

    open spec fn composed(&self, fact_type: FactType, current: Option<Value>, changes: ChangeList) -> Result<
        Resolved,
        ResolveError,
    > {
        living_outcome(fact_type, current, changes)
    }

    fn compose(&self, fact_type: FactType, current: Option<Value>, changes: &[Change]) -> (r: Result<
        Resolved,
        ResolveError,
    >)
        ensures
            r == living_outcome(fact_type, current, changes@),
    {
        if fact_type.same(&body_heat()) {
            compose_body_heat(current, changes)
        } else {
            Err(ResolveError::new("living: fact type not owned by this domain"))
        }
    }

    fn validate(&self, fact_type: FactType, value: &Resolved) -> (r: Result<(), ValidationError>)
        ensures
            r == living_verdict(fact_type, *value),
    {
        if fact_type.same(&body_heat()) {
            if let Resolved::Write(Value::Int(centi_c)) = value {
                if *centi_c < BODY_HEAT_FLOOR_CENTI_C {
                    return Err(ValidationError::new("body heat resolved below absolute zero"));
                }
            }
        }
        Ok(())
    }
}

} // verus!
