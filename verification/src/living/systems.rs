//! Hermetic transformations owned by the Living Systems domain.
//!
//! Thermoregulation is the first cross-domain behaviour: an organism reads where it lives
//! and how warm it is there (physical facts, by id), and its own body heat (a living fact),
//! and proposes a change to its body heat. It never calls into the physical domain.

use crate::arith::{clamp64, div_toward_zero, saturate64, trunc_div};
use crate::kernel::fact::{type_bytes, Cause, FactKey, FactType, SystemId};
use crate::kernel::identity::EntityId;
use crate::kernel::proposal::{Change, Proposal};
use crate::kernel::system::{
    basis_of, Cadence, CommittedView, FactTypeList, ProposalList, System, TickContext, TripleList,
};
use crate::kernel::triples::{entities_of_type, first_at, Triple};
use crate::kernel::value::Value;
use crate::living::schema::{ambient_temperature, body_heat, contained_in};
use vstd::prelude::*;

verus! {

/// The entity a committed reference fact of `e` names, if it names one.
pub open spec fn reference_of(s: Seq<Triple>, e: EntityId, ft: FactType) -> Option<EntityId> {
    match first_at(s, (e.0, type_bytes(ft))) {
        Some(f) => match f.value {
            Value::Entity(r) => Some(r),
            _ => None,
        },
        None => None,
    }
}

/// The integer a committed fact of `e` holds, if it holds one.
pub open spec fn integer_of(s: Seq<Triple>, e: EntityId, ft: FactType) -> Option<i64> {
    match first_at(s, (e.0, type_bytes(ft))) {
        Some(f) => match f.value {
            Value::Int(n) => Some(n),
            _ => None,
        },
        None => None,
    }
}

/// An organism's homeostasis: body heat is pulled back toward a set point and dragged
/// toward the ambient temperature of the region it lives in.
pub struct Thermoregulation {
    /// The body heat the organism defends, in centidegrees Celsius.
    pub set_point_centi_c: i64,
    /// How slowly the organism returns to its set point (larger is slower).
    pub warm_response: i64,
    /// How slowly the environment drags body heat toward ambient (larger is slower).
    pub cold_response: i64,
}

/// The body-heat change for body heat `current` in ambient temperature `ambient`: the pull
/// toward the set point plus the drag toward ambient, each divided by its response (at
/// least one) and rounded toward zero, saturating.
pub open spec fn heat_response(sys: Thermoregulation, current: i64, ambient: i64) -> i64 {
    let warm = if sys.warm_response >= 1 {
        sys.warm_response as int
    } else {
        1
    };
    let cold = if sys.cold_response >= 1 {
        sys.cold_response as int
    } else {
        1
    };
    clamp64(trunc_div(sys.set_point_centi_c - current, warm) + trunc_div(ambient - current, cold))
}

/// Thermoregulation pulls toward the set point over `warm_response` ticks and drags toward
/// ambient over `cold_response` ticks: at the set point only the ambient drag acts, divided by
/// the cold response; where ambient equals body heat only the set-point pull acts, divided by
/// the warm response (each response at least one, rounding toward zero).
pub proof fn law_pull_uses_warm_response_and_drag_uses_cold(sys: Thermoregulation, current: i64, ambient: i64)
    ensures
        current == sys.set_point_centi_c ==> heat_response(sys, current, ambient) == clamp64(
            trunc_div(ambient - current, if sys.cold_response >= 1 {
                sys.cold_response as int
            } else {
                1
            }),
        ),
        ambient == current ==> heat_response(sys, current, ambient) == clamp64(
            trunc_div(sys.set_point_centi_c - current, if sys.warm_response >= 1 {
                sys.warm_response as int
            } else {
                1
            }),
        ),
{
}

/// The body-heat change thermoregulation proposes for `organism`: the pull toward the set
/// point plus the drag toward ambient, each divided by its response (at least one) and
/// rounded toward zero, saturating; `None` when the organism has no region, the region no
/// integer temperature, or the organism no integer body heat.
pub open spec fn thermo_delta(sys: Thermoregulation, s: Seq<Triple>, organism: EntityId) -> Option<i64> {
    match reference_of(s, organism, contained_in()) {
        None => None,
        Some(region) => match integer_of(s, region, ambient_temperature()) {
            None => None,
            Some(ambient) => match integer_of(s, organism, body_heat()) {
                None => None,
                Some(current) => Some(heat_response(sys, current, ambient)),
            },
        },
    }
}

/// The proposals thermoregulation makes over the organisms `os`, in order.
pub open spec fn thermo_proposals(sys: Thermoregulation, s: Seq<Triple>, tick: u64, os: Seq<EntityId>) -> Seq<
    Proposal,
>
    decreases os.len(),
{
    if os.len() == 0 {
        Seq::empty()
    } else {
        let r = thermo_proposals(sys, s, tick, os.drop_last());
        match thermo_delta(sys, s, os.last()) {
            Some(d) => r.push(
                Proposal {
                    system: SystemId("living.thermoregulation"),
                    target: FactKey { entity: os.last(), fact_type: body_heat() },
                    basis_tick: basis_of(tick),
                    change: Change::Delta(d),
                    cause: Cause("thermoregulation"),
                },
            ),
            None => r,
        }
    }
}

impl Thermoregulation {
    /// Defend `set_point_centi_c`, returning to it over `warm_response` ticks while the
    /// environment drags body heat toward ambient over `cold_response` ticks.
    pub fn new(set_point_centi_c: i64, warm_response: i64, cold_response: i64) -> (r: Thermoregulation)
        ensures
            r == (Thermoregulation { set_point_centi_c, warm_response, cold_response }),
    {
        Thermoregulation { set_point_centi_c, warm_response, cold_response }
    }

    /// The body-heat change for `organism`, or `None` if it has no region, the region has no
    /// temperature, or the organism has no body heat.
    pub fn delta_for<V: CommittedView + ?Sized>(&self, view: &V, organism: EntityId) -> (r: Option<i64>)
        ensures
            r == thermo_delta(*self, view.committed(), organism),
    {
        // 1. Where am I? Read my containment (a physical fact) to find my region.
        let region = match view.read(FactKey::new(organism, contained_in())) {
            Some(f) => match f.value {
                Value::Entity(r) => r,
                _ => {
                    return None;
                },
            },
            None => {
                return None;
            },
        };
        // 2. How cold is it here? Read that region's ambient temperature (a physical fact).
        let ambient = match view.read(FactKey::new(region, ambient_temperature())) {
            Some(f) => match f.value {
                Value::Int(n) => n,
                _ => {
                    return None;
                },
            },
            None => {
                return None;
            },
        };
        // 3. My own current body heat (a living fact).
        let current = match view.read(FactKey::new(organism, body_heat())) {
            Some(f) => match f.value {
                Value::Int(n) => n,
                _ => {
                    return None;
                },
            },
            None => {
                return None;
            },
        };
        let warm: i64 = if self.warm_response >= 1 {
            self.warm_response
        } else {
            1
        };
        let cold: i64 = if self.cold_response >= 1 {
            self.cold_response
        } else {
            1
        };
        let pull = div_toward_zero((self.set_point_centi_c as i128) - (current as i128), warm as i128);
        let drag = div_toward_zero((ambient as i128) - (current as i128), cold as i128);
        Some(saturate64(pull + drag))
    }
}

impl System for Thermoregulation {
    open spec fn declared_id(&self) -> SystemId {
        SystemId("living.thermoregulation")
    }

    fn id(&self) -> (r: SystemId)
        ensures
            r == SystemId("living.thermoregulation"),
    {
        SystemId::new("living.thermoregulation")
    }

    open spec fn declared_reads(&self) -> FactTypeList {
        seq![contained_in(), ambient_temperature(), body_heat()]
    }

    fn reads(&self) -> (r: Vec<FactType>)
        ensures
            r@ == seq![contained_in(), ambient_temperature(), body_heat()],
    {
        let mut r: Vec<FactType> = Vec::new();
        r.push(contained_in());
        r.push(ambient_temperature());
        r.push(body_heat());
        r
    }

    open spec fn declared_writes(&self) -> FactTypeList {
        seq![body_heat()]
    }

    fn writes(&self) -> (r: Vec<FactType>)
        ensures
            r@ == seq![body_heat()],
    {
        let mut r: Vec<FactType> = Vec::new();
        r.push(body_heat());
        r
    }

    open spec fn declared_cadence(&self) -> Cadence {
        Cadence::EveryTick
    }

    fn cadence(&self) -> (r: Cadence)
        ensures
            r == Cadence::EveryTick,
    {
        Cadence::EveryTick
    }

    open spec fn evaluated(&self, committed: TripleList, ctx: TickContext) -> ProposalList {
        thermo_proposals(
                *self,
                committed,
                ctx.tick,
                entities_of_type(committed, type_bytes(body_heat())),
            )
    }

    fn evaluate(&self, view: &dyn CommittedView, ctx: &TickContext) -> (r: Vec<Proposal>)
        ensures
            r@ == thermo_proposals(
                *self,
                view.committed(),
                ctx.tick,
                entities_of_type(view.committed(), type_bytes(body_heat())),
            ),
    {
        // The organism roster: every entity bearing body heat.
        let organisms = view.entities_with(body_heat());
        let mut out: Vec<Proposal> = Vec::new();
        let mut i: usize = 0;
        while i < organisms.len()
            invariant
                i <= organisms.len(),
                out@ == thermo_proposals(*self, view.committed(), ctx.tick, organisms@.take(i as int)),
            decreases organisms.len() - i,
        {
            let organism = organisms[i];
            assert(organisms@.take(i + 1).drop_last() =~= organisms@.take(i as int));
            assert(organisms@.take(i + 1).last() == organism);
            match self.delta_for(view, organism) {
                Some(delta) => {
                    out.push(
                        Proposal::new(
                            self.id(),
                            FactKey::new(organism, body_heat()),
                            ctx.basis_tick(),
                            Change::Delta(delta),
                            Cause::new("thermoregulation"),
                        ),
                    );
                },
                None => {},
            }
            i = i + 1;
        }
        assert(organisms@.take(i as int) =~= organisms@);
        out
    }
}

/// Dividing toward zero by a positive divisor keeps order.
proof fn lemma_trunc_div_monotone(a: int, b: int, d: int)
    requires
        a <= b,
        d > 0,
    ensures
        trunc_div(a, d) <= trunc_div(b, d),
{
    if a >= 0 {
        assert(a / d <= b / d) by (nonlinear_arith)
            requires
                0 <= a <= b,
                d > 0,
        ;
    } else if b < 0 {
        assert((-b) / d <= (-a) / d) by (nonlinear_arith)
            requires
                0 < -b <= -a,
                d > 0,
        ;
    } else {
        assert((-a) / d >= 0 && b / d >= 0) by (nonlinear_arith)
            requires
                0 < -a,
                0 <= b,
                d > 0,
        ;
    }
}

/// Thermoregulation follows the environment: a colder region never warms an organism more
/// than a warmer one would, and an organism at its set point in a region at the set point
/// holds its body heat.
pub proof fn law_colder_region_colder_response(sys: Thermoregulation, current: i64, colder: i64, warmer: i64)
    requires
        colder <= warmer,
    ensures
        heat_response(sys, current, colder) <= heat_response(sys, current, warmer),
        heat_response(sys, sys.set_point_centi_c, sys.set_point_centi_c) == 0,
{
    let cold = if sys.cold_response >= 1 {
        sys.cold_response as int
    } else {
        1
    };
    lemma_trunc_div_monotone(colder - current, warmer - current, cold);
    assert(trunc_div(0, cold) == 0);
    let warm = if sys.warm_response >= 1 {
        sys.warm_response as int
    } else {
        1
    };
    assert(trunc_div(0, warm) == 0);
}

} // verus!
