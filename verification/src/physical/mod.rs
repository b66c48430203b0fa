//! The Physical Reality domain.
//!
//! It owns space (position, containment, elevation), connectivity, materials, and
//! environmental state: physical reality rarely owns the actors, it owns the stage upon which
//! they act. It is mandatory in every world, the one domain that may never be disabled, since
//! every fact needs somewhere to exist. Domains never import domains: cross-domain effect
//! happens through committed facts, never direct calls.

pub mod composition;
pub mod materials;
pub mod schema;
pub mod space;
pub mod systems;

use crate::kernel::domain::{ChangeList, Domain, ResolveError, Resolved, ValidationError};
use crate::kernel::fact::{contains_type, type_listed, Cardinality, FactType};
use crate::kernel::identity::EntityId;
use crate::kernel::proposal::Change;
use crate::kernel::system::System;
use crate::kernel::value::Value;
use crate::physical::composition::{
    additive_outcome, bounded_outcome, compose_additive, compose_bounded, compose_entity_ref,
    reference_outcome,
};
use crate::physical::schema::{
    adjacent_to, contained_in, elevation, exposure, has_portal, humidity, illumination, leads_to,
    made_of, material_conductivity, material_density, material_flammability, material_hardness,
    material_thermal_capacity, material_toxicity, portal_danger, portal_danger_override,
    position_x, position_y, position_z, pressure, temperature, wind_speed, wind_toward,
    ABSOLUTE_ZERO_CENTI_C, MAX_DANGER, MAX_DENSITY, MAX_PRESSURE, MAX_THERMAL_CAPACITY, MAX_WIND,
    PERCENT_FULL,
};
use vstd::prelude::*;

verus! {

/// The tunable rules the physical domain consumes, all sourced from the world package: no
/// climate or field number is hardcoded in engine code.
#[derive(Clone, Copy, PartialEq, Eq, Debug)]
pub struct PhysicalConfig {
    /// Ticks in one day/night cycle (shared by temperature and illumination).
    pub ticks_per_day: u64,
    /// Peak diurnal temperature swing, in centidegrees Celsius.
    pub diurnal_amplitude_centi_c: i64,
    /// Maximum per-tick temperature weather perturbation, in centidegrees Celsius.
    pub weather_max_swing_centi_c: i64,
    /// Illumination at midday, in hundredths of a percent (0..=10000).
    pub illumination_peak: i64,
    /// Humidity baseline the weather drifts toward, in hundredths of a percent.
    pub humidity_baseline: i64,
    /// Maximum per-tick humidity weather perturbation, in hundredths of a percent.
    pub humidity_swing: i64,
    /// Divisor governing how fast humidity returns to baseline (larger = slower).
    pub humidity_drying_divisor: i64,
    /// Baseline pressure at the datum, in decapascals.
    pub pressure_sea_level: i64,
    /// Decapascals of pressure dropped per metre of elevation.
    pub pressure_elevation_factor: i64,
    /// Maximum per-tick pressure weather perturbation.
    pub pressure_weather_swing: i64,
    /// Divisor governing how fast pressure returns to its baseline (larger = slower).
    pub pressure_settle_divisor: i64,
    /// Pressure difference per unit of wind speed (larger = gentler).
    pub wind_gradient_divisor: i64,
    /// Danger points per metre of a portal's height above the ground.
    pub fall_danger_per_meter: i64,
    /// The thermal capacity at which a region keeps half the diurnal swing (0: no damping).
    pub thermal_mass_reference: i64,
}

/// The Physical Reality domain, plugged into the kernel as owner of the stage.
///
/// Configured over a set of regions sharing one set of environmental rules; each region
/// carries its own temperature, illumination, humidity, pressure and wind, evolving under
/// its own weather substreams. Every region committed reality shows is simulated too.
#[derive(Debug)]
pub struct PhysicalDomain {
    /// The regions configured to be simulated.
    pub regions: Vec<EntityId>,
    /// The environmental rules.
    pub config: PhysicalConfig,
}

impl PhysicalDomain {
    /// Configure the domain over `regions` with the given environmental rules.
    pub fn new(regions: Vec<EntityId>, config: PhysicalConfig) -> (d: PhysicalDomain)
        ensures
            d.regions == regions,
            d.config == config,
    {
        PhysicalDomain { regions, config }
    }
}

/// The fact types composed additively: temperature, elevation and positions.
pub open spec fn additive_types() -> Seq<FactType> {
    seq![temperature(), elevation(), position_x(), position_y(), position_z()]
}

/// The fact types bounded to a percentage: illumination, humidity, exposure and the
/// normalised material properties.
pub open spec fn percent_types() -> Seq<FactType> {
    seq![
        illumination(),
        humidity(),
        exposure(),
        material_hardness(),
        material_flammability(),
        material_conductivity(),
        material_toxicity(),
    ]
}

/// The entity-reference fact types: containment, the downwind region, a portal's far side.
pub open spec fn reference_types() -> Seq<FactType> {
    seq![contained_in(), wind_toward(), leads_to()]
}

/// The set-valued fact types: adjacency, a region's portals, an object's materials.
pub open spec fn set_types() -> Seq<FactType> {
    seq![adjacent_to(), has_portal(), made_of()]
}

/// Every fact type the physical domain owns.
pub open spec fn physical_types() -> Seq<FactType> {
    additive_types() + percent_types() + reference_types() + set_types() + seq![
        pressure(),
        wind_speed(),
        portal_danger(),
        portal_danger_override(),
        material_density(),
        material_thermal_capacity(),
    ]
}

/// The error for a fact type the physical domain does not own.
pub open spec fn not_physical() -> ResolveError {
    ResolveError { reason: "physical: fact type not owned by this domain" }
}

/// The error for a set-valued fact, which the kernel composes itself.
pub open spec fn composed_by_kernel() -> ResolveError {
    ResolveError { reason: "physical: set-valued facts are composed by the kernel" }
}

/// How the physical domain composes the proposals against one of its facts.
pub open spec fn physical_outcome(ft: FactType, current: Option<Value>, cs: Seq<Change>) -> Result<
    Resolved,
    ResolveError,
> {
    if type_listed(additive_types(), ft) {
        additive_outcome(current, cs)
    } else if type_listed(percent_types(), ft) {
        bounded_outcome(current, cs, 0, PERCENT_FULL)
    } else if type_listed(seq![pressure()], ft) {
        bounded_outcome(current, cs, 0, MAX_PRESSURE)
    } else if type_listed(seq![wind_speed()], ft) {
        bounded_outcome(current, cs, 0, MAX_WIND)
    } else if type_listed(seq![portal_danger(), portal_danger_override()], ft) {
        bounded_outcome(current, cs, 0, MAX_DANGER)
    } else if type_listed(seq![material_density()], ft) {
        bounded_outcome(current, cs, 0, MAX_DENSITY)
    } else if type_listed(seq![material_thermal_capacity()], ft) {
        bounded_outcome(current, cs, 0, MAX_THERMAL_CAPACITY)
    } else if type_listed(reference_types(), ft) {
        reference_outcome(current, cs)
    } else if type_listed(set_types(), ft) {
        Err(composed_by_kernel())
    } else {
        Err(not_physical())
    }
}

/// The coherence check on a resolved physical fact: a temperature never below absolute
/// zero, containment always an entity.
pub open spec fn physical_verdict(ft: FactType, value: Resolved) -> Result<(), ValidationError> {
    if type_listed(seq![temperature()], ft) && (value matches Resolved::Write(Value::Int(c)) && c
        < ABSOLUTE_ZERO_CENTI_C) {
        Err(ValidationError { reason: "temperature resolved below absolute zero" })
    } else if type_listed(seq![contained_in()], ft) && (value matches Resolved::Write(v) && !(
    v is Entity)) {
        Err(ValidationError { reason: "containment must reference an entity" })
    } else {
        Ok(())
    }
}

/// A list of fact types, built from the given ones in order.
fn types_vec(ts: Seq<FactType>, a: &[FactType]) -> (r: Vec<FactType>)
    requires
        a@ == ts,
    ensures
        r@ == ts,
{
    let mut r: Vec<FactType> = Vec::new();
    let mut i: usize = 0;
    while i < a.len()
        invariant
            i <= a.len(),
            r@ == a@.take(i as int),
        decreases a.len() - i,
    {
        r.push(a[i]);
        assert(a@.take(i + 1) =~= a@.take(i as int).push(a@[i as int]));
        i = i + 1;
    }
    assert(a@.take(i as int) =~= a@);
    r
}

/// Whether `ft` is one of `ts`.
fn listed(ts: &[FactType], ft: FactType) -> (r: bool)
    ensures
        r == type_listed(ts@, ft),
{
    contains_type(ts, &ft)
}

/// A copy of a list of entities.
fn copy_entities(v: &Vec<EntityId>) -> (r: Vec<EntityId>)
    ensures
        r@ == v@,
{
    let mut r: Vec<EntityId> = Vec::new();
    let mut i: usize = 0;
    while i < v.len()
        invariant
            i <= v.len(),
            r@ == v@.take(i as int),
        decreases v.len() - i,
    {
        r.push(v[i]);
        assert(v@.take(i + 1) =~= v@.take(i as int).push(v@[i as int]));
        i = i + 1;
    }
    assert(v@.take(i as int) =~= v@);
    r
}

impl Domain for PhysicalDomain {
    fn name(&self) -> (r: &'static str)
        ensures
            r == "physical",
    {
        "physical"
    }

    open spec fn owned(&self, fact_type: FactType) -> bool {
        type_listed(physical_types(), fact_type)
    }

    fn owns(&self, fact_type: FactType) -> (r: bool)
        ensures
            r == type_listed(physical_types(), fact_type),
    {
        let all = [
            temperature(),
            elevation(),
            position_x(),
            position_y(),
            position_z(),
            illumination(),
            humidity(),
            exposure(),
            material_hardness(),
            material_flammability(),
            material_conductivity(),
            material_toxicity(),
            contained_in(),
            wind_toward(),
            leads_to(),
            adjacent_to(),
            has_portal(),
            made_of(),
            pressure(),
            wind_speed(),
            portal_danger(),
            portal_danger_override(),
            material_density(),
            material_thermal_capacity(),
        ];
        assert(all@ =~= physical_types());
        listed(&all, fact_type)
    }

    open spec fn composed(&self, fact_type: FactType, current: Option<Value>, changes: ChangeList) -> Result<
        Resolved,
        ResolveError,
    > {
        physical_outcome(fact_type, current, changes)
    }

    open spec fn declared_cardinality(&self, fact_type: FactType) -> Cardinality {
        if type_listed(set_types(), fact_type) {
            Cardinality::Many
        } else {
            Cardinality::One
        }
    }

    open spec fn validated(&self, fact_type: FactType, value: Resolved) -> Result<(), ValidationError> {
        physical_verdict(fact_type, value)
    }

    fn cardinality(&self, fact_type: FactType) -> (r: Cardinality)
        ensures
            r == (if type_listed(set_types(), fact_type) {
                Cardinality::Many
            } else {
                Cardinality::One
            }),
    {
        let many = [adjacent_to(), has_portal(), made_of()];
        assert(many@ =~= set_types());
        if listed(&many, fact_type) {
            Cardinality::Many
        } else {
            Cardinality::One
        }
    }

    /// The seven environmental systems configured from the domain's rules and regions:
    /// diurnal cycle, weather noise, day and night, precipitation, pressure, wind and portal
    /// danger, in that order. The contract gives their number only: Verus relates no element
    /// of a vector of trait objects past the first to the value placed there.
    fn systems(&self) -> (r: Vec<Box<dyn System>>)
        ensures
            r@.len() == 7,
    {
        let c = self.config;
        let b1: Box<dyn System> = Box::new(
                systems::DiurnalCycle::new(
                    copy_entities(&self.regions),
                    c.ticks_per_day,
                    c.diurnal_amplitude_centi_c,
                    c.thermal_mass_reference,
                ),
        );
        let b2: Box<dyn System> = Box::new(
                systems::WeatherNoise::new(copy_entities(&self.regions), c.weather_max_swing_centi_c),
        );
        let b3: Box<dyn System> = Box::new(
                systems::DayNightCycle::new(
                    copy_entities(&self.regions),
                    c.ticks_per_day,
                    c.illumination_peak,
                ),
        );
        let b4: Box<dyn System> = Box::new(
                systems::Precipitation::new(
                    copy_entities(&self.regions),
                    c.humidity_baseline,
                    c.humidity_swing,
                    c.humidity_drying_divisor,
                ),
        );
        let b5: Box<dyn System> = Box::new(
                systems::PressureSystem::new(
                    copy_entities(&self.regions),
                    c.pressure_sea_level,
                    c.pressure_elevation_factor,
                    c.pressure_weather_swing,
                    c.pressure_settle_divisor,
                ),
        );
        let b6: Box<dyn System> = Box::new(
                systems::WindSystem::new(
                    copy_entities(&self.regions),
                    c.wind_gradient_divisor,
                    MAX_WIND,
                ),
        );
        let b7: Box<dyn System> = Box::new(systems::PortalDanger::new(c.fall_danger_per_meter));
        vec![b1, b2, b3, b4, b5, b6, b7]
    }

    fn compose(&self, fact_type: FactType, current: Option<Value>, changes: &[Change]) -> (r: Result<
        Resolved,
        ResolveError,
    >)
        ensures
            r == physical_outcome(fact_type, current, changes@),
    {
        let additive = [temperature(), elevation(), position_x(), position_y(), position_z()];
        assert(additive@ =~= additive_types());
        let percent = [
            illumination(),
            humidity(),
            exposure(),
            material_hardness(),
            material_flammability(),
            material_conductivity(),
            material_toxicity(),
        ];
        assert(percent@ =~= percent_types());
        let references = [contained_in(), wind_toward(), leads_to()];
        assert(references@ =~= reference_types());
        let sets = [adjacent_to(), has_portal(), made_of()];
        assert(sets@ =~= set_types());
        let p = [pressure()];
        let w = [wind_speed()];
        let d = [portal_danger(), portal_danger_override()];
        let m = [material_density()];
        let t = [material_thermal_capacity()];
        assert(p@ =~= seq![pressure()]);
        assert(w@ =~= seq![wind_speed()]);
        assert(d@ =~= seq![portal_danger(), portal_danger_override()]);
        assert(m@ =~= seq![material_density()]);
        assert(t@ =~= seq![material_thermal_capacity()]);
        if listed(&additive, fact_type) {
            compose_additive(current, changes)
        } else if listed(&percent, fact_type) {
            compose_bounded(current, changes, 0, PERCENT_FULL)
        } else if listed(&p, fact_type) {
            compose_bounded(current, changes, 0, MAX_PRESSURE)
        } else if listed(&w, fact_type) {
            compose_bounded(current, changes, 0, MAX_WIND)
        } else if listed(&d, fact_type) {
            compose_bounded(current, changes, 0, MAX_DANGER)
        } else if listed(&m, fact_type) {
            compose_bounded(current, changes, 0, MAX_DENSITY)
        } else if listed(&t, fact_type) {
            compose_bounded(current, changes, 0, MAX_THERMAL_CAPACITY)
        } else if listed(&references, fact_type) {
            compose_entity_ref(current, changes)
        } else if listed(&sets, fact_type) {
            Err(ResolveError::new("physical: set-valued facts are composed by the kernel"))
        } else {
            Err(ResolveError::new("physical: fact type not owned by this domain"))
        }
    }

    fn validate(&self, fact_type: FactType, value: &Resolved) -> (r: Result<(), ValidationError>)
        ensures
            r == physical_verdict(fact_type, *value),
    {
        let temp = [temperature()];
        let containment = [contained_in()];
        assert(temp@ =~= seq![temperature()]);
        assert(containment@ =~= seq![contained_in()]);
        let too_cold = match value {
            Resolved::Write(Value::Int(centi_c)) => *centi_c < ABSOLUTE_ZERO_CENTI_C,
            _ => false,
        };
        let not_entity = match value {
            Resolved::Write(Value::Entity(_)) => false,
            Resolved::Write(_) => true,
            Resolved::Tombstone => false,
        };
        if listed(&temp, fact_type) && too_cold {
            return Err(ValidationError::new("temperature resolved below absolute zero"));
        }
        if listed(&containment, fact_type) && not_entity {
            return Err(ValidationError::new("containment must reference an entity"));
        }
        Ok(())
    }
}

} // verus!
