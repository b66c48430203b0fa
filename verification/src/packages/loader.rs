//! Turning a validated [`WorldPackage`] into a running world.
//!
//! The loader is the boundary between data and world: no engine defaults. It enforces the
//! engine-version range, requires Physical Reality, configures each enabled domain from its
//! package rules, and seeds initial reality through the store: the world begins as a set of
//! committed facts, exactly where a later tick would leave it.
//!
//! It is also where cross-domain worlds are assembled: `physical` and `living` are both
//! configured here from package data. The domains never reference each other; living finds an
//! organism's region and temperature in the store by their published ids.

use crate::kernel::domain::Domain;
use crate::kernel::proposal::Proposal;
use crate::kernel::events::ChronicleEntry;
use crate::kernel::fact::{
    key_id, type_bytes, type_listed, Cause, Fact, FactKey, FactType, Provenance, SystemId,
};
use crate::kernel::identity::EntityId;
use crate::kernel::store::{applied, MemoryStore, Resolution};
use crate::kernel::system::{CommittedView, System};
use crate::kernel::tick::{chronicle_of, committed_at, emitted, run_tick, tick_resolves, TickError};
use crate::kernel::triples::{
    facts_at, fact_of, lemma_seeded_shape, seed_index, seed_replaces, seeded, slot, Triple,
};
use crate::kernel::value::Value;
use crate::living::schema::body_heat;
use crate::living::LivingDomain;
use crate::packages::model::{
    AdjacencySpec, ContainmentSpec, ExposureSpec, LivingRules, MadeOfSpec, MaterialProperty,
    MaterialSpec, OrganismSpec, PhysicalRules, PortalDangerSpec, PortalSpec, PositionSpec,
    RegionSpec, WorldPackage,
};
use crate::packages::text::joined;
use crate::packages::version::{version_lt, version_text, Version};
use crate::physical::schema::{
    adjacent_to, contained_in, elevation, exposure, has_portal, leads_to, made_of,
    material_conductivity, material_density, material_flammability, material_hardness,
    material_thermal_capacity, material_toxicity, portal_danger_override, position_x,
    position_y, position_z, temperature,
};
use crate::physical::{physical_types, PhysicalConfig, PhysicalDomain};
use vstd::prelude::*;
use vstd::string::StringSliceAdditionalSpecFns;

verus! {

/// Why a world package could not be loaded.
#[derive(Clone, PartialEq, Eq, Debug)]
pub enum LoadError {
    /// The engine version is outside the package's declared range.
    EngineMismatch {
        /// The range the package requires, rendered.
        required: String,
        /// The actual engine version.
        engine: Version,
    },
    /// Physical Reality was not selected, but every world requires it.
    PhysicalNotSelected,
    /// The living domain was selected but the package supplied no living rules. A missing
    /// rule is a validation error, never an engine default.
    LivingRulesMissing,
    /// A selected domain has no implementation wired into the loader.
    UnsupportedDomain(String),
}

impl LoadError {
    /// The error rendered as a sentence.
    pub fn describe(&self) -> (r: String)
        ensures
            match self {
                LoadError::EngineMismatch { required, engine } => r@ == "engine "@ + version_text(
                    *engine,
                ) + " does not satisfy required range "@ + required@,
                LoadError::PhysicalNotSelected => r@
                    == "package does not select the mandatory `physical` domain"@,
                LoadError::LivingRulesMissing => r@
                    == "`living` domain selected but no [rules.living] provided"@,
                LoadError::UnsupportedDomain(d) => r@ == "selected domain `"@ + d@
                    + "` is not implemented yet"@,
            },
    {
        match self {
            LoadError::EngineMismatch { required, engine } => {
                let v = engine.render();
                let a = joined("engine ", v.as_str(), " does not satisfy required range ");
                let r = joined(a.as_str(), required.as_str(), "");
                proof {
                    reveal_strlit("");
                }
                r
            },
            LoadError::PhysicalNotSelected => {
                "package does not select the mandatory `physical` domain".to_owned()
            },
            LoadError::LivingRulesMissing => {
                "`living` domain selected but no [rules.living] provided".to_owned()
            },
            LoadError::UnsupportedDomain(d) => joined(
                "selected domain `",
                d.as_str(),
                "` is not implemented yet",
            ),
        }
    }
}

/// A world assembled from a package: seeded committed state plus its configured domains,
/// ready to tick.
#[derive(Debug)]
pub struct LoadedWorld {
    store: MemoryStore,
    physical: PhysicalDomain,
    living: Option<LivingDomain>,
}

impl LoadedWorld {
    /// The world's committed facts.
    pub closed spec fn facts(&self) -> Seq<Triple> {
        self.store.committed()
    }

    /// The world's physical domain configuration.
    pub closed spec fn physical_domain(&self) -> &PhysicalDomain {
        &self.physical
    }

    /// The world's living domain configuration, if living is enabled.
    pub closed spec fn living_domain(&self) -> Option<LivingDomain> {
        self.living
    }

    /// The committed reality store, for read-only inspection.
    pub fn store(&self) -> (r: &MemoryStore)
        ensures
            r.committed() == self.facts(),
    {
        &self.store
    }

    /// Advance the loaded world by one tick under `seed`, appending to `chronicle`. The
    /// enabled domains' systems run against the world's committed reality (see
    /// [`run_tick`]); on failure the world and the chronicle are left as they were. The
    /// contract names the domains and proposals only up to existence: Verus relates no element
    /// of a vector of trait objects past the first to the value placed there, so the vectors
    /// of domains and systems built here cannot be described element by element.
    pub fn tick(&mut self, tick: u64, seed: u64, chronicle: &mut Vec<ChronicleEntry>) -> (r: Result<
        (),
        TickError,
    >)
        ensures
            final(self).physical_domain() == old(self).physical_domain(),
            final(self).living_domain() == old(self).living_domain(),
            r is Err ==> final(self).facts() == old(self).facts() && final(chronicle)@ == old(
                chronicle,
            )@,
            r is Ok ==> exists|rs: Seq<Resolution>, cs: Seq<Seq<Cause>>|
                final(chronicle)@ == old(chronicle)@ + #[trigger] chronicle_of(tick, rs, cs)
                    && applied(old(self).facts(), rs) == final(self).facts() && rs.len() == cs.len()
                    && forall|q: int| 0 <= q < rs.len() ==> committed_at(#[trigger] rs[q], cs[q], tick),
            r is Ok ==> exists|ds: Seq<&dyn Domain>, ps: Seq<Proposal>, rs: Seq<Resolution>, cs: Seq<Seq<Cause>>|
                #[trigger] tick_resolves(ds, old(self).facts(), ps, tick, Ok((rs, cs)))
                    && final(chronicle)@ == old(chronicle)@ + chronicle_of(tick, rs, cs)
                    && final(self).facts() == applied(old(self).facts(), rs),
    {
        let mut systems = self.physical.systems();
        let mut domains: Vec<&dyn Domain> = Vec::new();
        domains.push(&self.physical);
        if let Some(living) = &self.living {
            let mut more = living.systems();
            systems.append(&mut more);
            domains.push(living);
        }
        let ghost before = self.store.committed();
        let ghost logged = chronicle@;
        let r = run_tick(&mut self.store, domains.as_slice(), systems.as_slice(), tick, seed, chronicle);
        proof {
            if r is Ok {
                let (order, rs2, cs2) = choose|order: Seq<usize>, rs: Seq<Resolution>, cs: Seq<Seq<Cause>>|
                    #[trigger] tick_resolves(
                        domains@,
                        before,
                        emitted(systems@, before, order, tick, seed),
                        tick,
                        Ok((rs, cs)),
                    ) && chronicle@ == logged + chronicle_of(tick, rs, cs)
                        && self.store.committed() == applied(before, rs);
                let ps = emitted(systems@, before, order, tick, seed);
                assert(tick_resolves(domains@, old(self).facts(), ps, tick, Ok((rs2, cs2))));
                let (rs, cs) = choose|rs: Seq<Resolution>, cs: Seq<Seq<Cause>>|
                    chronicle@ == logged + #[trigger] chronicle_of(tick, rs, cs) && applied(before, rs)
                        == self.store.committed() && rs.len() == cs.len() && forall|q: int|
                        0 <= q < rs.len() ==> committed_at(#[trigger] rs[q], cs[q], tick);
                assert(applied(before, rs) == self.store.committed());
                assert(chronicle@ == logged + chronicle_of(tick, rs, cs));
                assert(self.facts() == self.store.committed());
                assert(before == old(self).facts());
                assert(logged == old(chronicle)@);
            }
        }
        r
    }
}

/// The engine version this build presents to packages.
pub fn engine_version() -> (v: Version)
    ensures
        v == (Version { major: 0, minor: 1, patch: 0 }),
{
    Version::new(0, 1, 0)
}

/// Whether a range admits a version.
pub open spec fn engine_accepts(req: crate::packages::version::EngineReq, v: Version) -> bool {
    !version_lt(v, req.min) && version_lt(v, req.max)
}

/// A range rendered as `>=min, <max`.
pub open spec fn range_text(req: crate::packages::version::EngineReq) -> Seq<char> {
    ">="@ + version_text(req.min) + ", <"@ + version_text(req.max)
}

/// The names of the domains a package selects.
pub open spec fn domain_texts(p: WorldPackage) -> Seq<Seq<char>> {
    p.manifest.domains@.map_values(|d: String| d@)
}

/// Reading the selected domains in order: whether `physical` and `living` are selected, or
/// the first name the loader does not know.
pub open spec fn selection(names: Seq<Seq<char>>) -> Result<(bool, bool), Seq<char>>
    decreases names.len(),
{
    if names.len() == 0 {
        Ok((false, false))
    } else {
        match selection(names.drop_last()) {
            Err(n) => Err(n),
            Ok((physical, living)) => if names.last() == "physical"@ {
                Ok((true, living))
            } else if names.last() == "living"@ {
                Ok((physical, true))
            } else {
                Err(names.last())
            },
        }
    }
}

/// The regions a package declares, as entities.
pub open spec fn region_ids(p: WorldPackage) -> Seq<EntityId> {
    p.regions@.map_values(|r: RegionSpec| EntityId(r.id))
}

/// The physical domain's rules, from the package's: an absent thermal-mass reference means
/// no damping.
pub open spec fn physical_config(r: PhysicalRules) -> PhysicalConfig {
    PhysicalConfig {
        ticks_per_day: r.ticks_per_day,
        diurnal_amplitude_centi_c: r.diurnal_amplitude_centi_c,
        weather_max_swing_centi_c: r.weather_max_swing_centi_c,
        illumination_peak: r.illumination_peak,
        humidity_baseline: r.humidity_baseline,
        humidity_swing: r.humidity_swing,
        humidity_drying_divisor: r.humidity_drying_divisor,
        pressure_sea_level: r.pressure_sea_level,
        pressure_elevation_factor: r.pressure_elevation_factor,
        pressure_weather_swing: r.pressure_weather_swing,
        pressure_settle_divisor: r.pressure_settle_divisor,
        wind_gradient_divisor: r.wind_gradient_divisor,
        fall_danger_per_meter: r.fall_danger_per_meter,
        thermal_mass_reference: match r.thermal_mass_reference {
            Some(v) => v,
            None => 0,
        },
    }
}

/// The living domain, from the package's rules.
pub open spec fn living_config(r: LivingRules) -> LivingDomain {
    LivingDomain {
        set_point_centi_c: r.set_point_centi_c,
        warm_response: r.warm_response,
        cold_response: r.cold_response,
    }
}

/// The provenance of every seeded fact: world generation, before tick 1.
pub open spec fn seed_provenance() -> Provenance {
    Provenance { system: SystemId("worldgen"), tick: 0, cause: Cause("package_seed") }
}

/// The committed triple seeding `value` as `fact_type` of `entity`.
pub open spec fn plant(entity: u64, fact_type: FactType, value: Value) -> Triple {
    Triple {
        key: FactKey { entity: EntityId(entity), fact_type },
        value,
        provenance: seed_provenance(),
    }
}

/// The listing after seeding each triple in order.
pub open spec fn seed_list(s: Seq<Triple>, ts: Seq<Triple>) -> Seq<Triple>
    decreases ts.len(),
{
    if ts.len() == 0 {
        s
    } else {
        seeded(seed_list(s, ts.drop_last()), ts.last())
    }
}

/// The triples seeded for each item in order.
pub open spec fn each<A>(xs: Seq<A>, f: spec_fn(A) -> Seq<Triple>) -> Seq<Triple>
    decreases xs.len(),
{
    if xs.len() == 0 {
        Seq::empty()
    } else {
        each(xs.drop_last(), f) + f(xs.last())
    }
}

/// A region's temperature, and its elevation when given.
pub open spec fn region_seeds() -> spec_fn(RegionSpec) -> Seq<Triple> {
    |r: RegionSpec|
        seq![plant(r.id, temperature(), Value::Int(r.temperature_centi_c))] + match r.elevation {
            Some(e) => seq![plant(r.id, elevation(), Value::Int(e))],
            None => Seq::empty(),
        }
}

/// An organism placed in its region.
pub open spec fn placement_seeds() -> spec_fn(OrganismSpec) -> Seq<Triple> {
    |o: OrganismSpec| seq![plant(o.id, contained_in(), Value::Entity(EntityId(o.region_id)))]
}

/// A declared containment link.
pub open spec fn containment_seeds() -> spec_fn(ContainmentSpec) -> Seq<Triple> {
    |c: ContainmentSpec|
        seq![plant(c.child_id, contained_in(), Value::Entity(EntityId(c.parent_id)))]
}

/// An adjacency edge, in both directions.
pub open spec fn adjacency_seeds() -> spec_fn(AdjacencySpec) -> Seq<Triple> {
    |e: AdjacencySpec|
        seq![
            plant(e.a, adjacent_to(), Value::Entity(EntityId(e.b))),
            plant(e.b, adjacent_to(), Value::Entity(EntityId(e.a))),
        ]
}

/// A region's exposure.
pub open spec fn exposure_seeds() -> spec_fn(ExposureSpec) -> Seq<Triple> {
    |x: ExposureSpec| seq![plant(x.region_id, exposure(), Value::Int(x.exposure))]
}

/// The local position of `entity`: x, y, and z when given.
pub open spec fn spot(entity: u64, x: i64, y: i64, z: Option<i64>) -> Seq<Triple> {
    seq![plant(entity, position_x(), Value::Int(x)), plant(entity, position_y(), Value::Int(y))]
        + match z {
        Some(z) => seq![plant(entity, position_z(), Value::Int(z))],
        None => Seq::empty(),
    }
}

/// An entity's position.
pub open spec fn position_seeds() -> spec_fn(PositionSpec) -> Seq<Triple> {
    |p: PositionSpec| spot(p.entity_id, p.x, p.y, p.z)
}

/// A portal: located in its host at its spot, leading to its far side, and hosted by the
/// host region.
pub open spec fn portal_seeds() -> spec_fn(PortalSpec) -> Seq<Triple> {
    |p: PortalSpec|
        seq![plant(p.portal_id, contained_in(), Value::Entity(EntityId(p.host_region)))] + spot(
            p.portal_id,
            p.x,
            p.y,
            p.z,
        ) + seq![
            plant(p.portal_id, leads_to(), Value::Entity(EntityId(p.dest_region))),
            plant(p.host_region, has_portal(), Value::Entity(EntityId(p.portal_id))),
        ]
}

/// A portal's pinned danger.
pub open spec fn danger_seeds() -> spec_fn(PortalDangerSpec) -> Seq<Triple> {
    |d: PortalDangerSpec| seq![plant(d.portal_id, portal_danger_override(), Value::Int(d.danger))]
}

/// The fact type a material property is committed as.
pub open spec fn property_type(p: MaterialProperty) -> FactType {
    match p {
        MaterialProperty::Density => material_density(),
        MaterialProperty::Hardness => material_hardness(),
        MaterialProperty::ThermalCapacity => material_thermal_capacity(),
        MaterialProperty::Flammability => material_flammability(),
        MaterialProperty::Conductivity => material_conductivity(),
        MaterialProperty::Toxicity => material_toxicity(),
    }
}

/// One property of material `id`.
pub open spec fn property_seeds(id: u64) -> spec_fn((MaterialProperty, i64)) -> Seq<Triple> {
    |p: (MaterialProperty, i64)| seq![plant(id, property_type(p.0), Value::Int(p.1))]
}

/// A material's declared properties, in order.
pub open spec fn material_seeds() -> spec_fn(MaterialSpec) -> Seq<Triple> {
    |m: MaterialSpec| each(m.properties@, property_seeds(m.id))
}

/// A composition link.
pub open spec fn made_of_seeds() -> spec_fn(MadeOfSpec) -> Seq<Triple> {
    |l: MadeOfSpec| seq![plant(l.object_id, made_of(), Value::Entity(EntityId(l.material_id)))]
}

/// An organism's body heat.
pub open spec fn heat_seeds() -> spec_fn(OrganismSpec) -> Seq<Triple> {
    |o: OrganismSpec| seq![plant(o.id, body_heat(), Value::Int(o.body_heat_centi_c))]
}

/// Every triple a package seeds, in order; body heat only when living is enabled.
pub open spec fn world_seeds(p: WorldPackage, living: bool) -> Seq<Triple> {
    each(p.regions@, region_seeds()) + each(p.organisms@, placement_seeds()) + each(
        p.containment@,
        containment_seeds(),
    ) + each(p.adjacency@, adjacency_seeds()) + each(p.exposure@, exposure_seeds()) + each(
        p.positions@,
        position_seeds(),
    ) + each(p.portals@, portal_seeds()) + each(p.portal_danger@, danger_seeds()) + each(
        p.materials@,
        material_seeds(),
    ) + each(p.made_of@, made_of_seeds()) + if living {
        each(p.organisms@, heat_seeds())
    } else {
        Seq::empty()
    }
}

/// Seeding one more item's triples extends the listing by them.
pub proof fn lemma_each_step<A>(xs: Seq<A>, f: spec_fn(A) -> Seq<Triple>, i: int)
    requires
        0 <= i < xs.len(),
    ensures
        each(xs.take(i + 1), f) == each(xs.take(i), f) + f(xs[i]),
{
    assert(xs.take(i + 1).drop_last() =~= xs.take(i));
}

/// Seeding one more triple.
proof fn lemma_seed_list_push(s: Seq<Triple>, ts: Seq<Triple>, t: Triple)
    ensures
        seed_list(s, ts.push(t)) == seeded(seed_list(s, ts), t),
{
    assert(ts.push(t).drop_last() =~= ts);
}

/// Seed `value` as `fact_type` of `entity`, extending the seeding plan by that triple.
fn plant_fact(
    store: &mut MemoryStore,
    entity: u64,
    fact_type: FactType,
    value: Value,
    Ghost(plan): Ghost<Seq<Triple>>,
)
    requires
        old(store).committed() == seed_list(Seq::empty(), plan),
    ensures
        final(store).committed() == seed_list(Seq::empty(), plan.push(plant(entity, fact_type, value))),
{
    let provenance = Provenance::new(SystemId::new("worldgen"), 0, Cause::new("package_seed"));
    store.seed(FactKey::new(EntityId::from_raw(entity), fact_type), Fact::new(value, provenance));
    proof {
        lemma_seed_list_push(Seq::empty(), plan, plant(entity, fact_type, value));
    }
}

/// The fact type a material property is committed as.
fn property_fact_type(p: MaterialProperty) -> (t: FactType)
    ensures
        t == property_type(p),
{
    match p {
        MaterialProperty::Density => material_density(),
        MaterialProperty::Hardness => material_hardness(),
        MaterialProperty::ThermalCapacity => material_thermal_capacity(),
        MaterialProperty::Flammability => material_flammability(),
        MaterialProperty::Conductivity => material_conductivity(),
        MaterialProperty::Toxicity => material_toxicity(),
    }
}

/// Whether some text is exactly `lit`.
fn text_is(t: &String, lit: &str) -> (r: bool)
    ensures
        r == (t@ == lit@),
{
    let l = lit.to_owned();
    *t == l
}

/// Once a selected name is refused, the whole selection is.
proof fn lemma_selection_stays_failed(names: Seq<Seq<char>>, n: int)
    requires
        0 <= n <= names.len(),
        selection(names.take(n)) is Err,
    ensures
        selection(names) == selection(names.take(n)),
    decreases names.len() - n,
{
    if n == names.len() {
        assert(names.take(n) =~= names);
    } else {
        assert(names.take(n + 1).drop_last() =~= names.take(n));
        lemma_selection_stays_failed(names, n + 1);
    }
}

/// Seed the local position `x, y[, z]` of `entity`.
fn plant_spot(
    store: &mut MemoryStore,
    entity: u64,
    x: i64,
    y: i64,
    z: Option<i64>,
    Ghost(plan): Ghost<Seq<Triple>>,
)
    requires
        old(store).committed() == seed_list(Seq::empty(), plan),
    ensures
        final(store).committed() == seed_list(Seq::empty(), plan + spot(entity, x, y, z)),
{
    let ghost mut cur = plan;
    plant_fact(store, entity, position_x(), Value::Int(x), Ghost(cur));
    proof {
        cur = cur.push(plant(entity, position_x(), Value::Int(x)));
    }
    plant_fact(store, entity, position_y(), Value::Int(y), Ghost(cur));
    proof {
        cur = cur.push(plant(entity, position_y(), Value::Int(y)));
    }
    if let Some(z) = z {
        plant_fact(store, entity, position_z(), Value::Int(z), Ghost(cur));
        proof {
            cur = cur.push(plant(entity, position_z(), Value::Int(z)));
        }
    }
    assert(cur =~= plan + spot(entity, x, y, z));
}

/// Seed every region's temperature and elevation.
fn seed_regions(store: &mut MemoryStore, items: &Vec<RegionSpec>, Ghost(plan): Ghost<Seq<Triple>>)
    requires
        old(store).committed() == seed_list(Seq::empty(), plan),
    ensures
        final(store).committed() == seed_list(Seq::empty(), plan + each(items@, region_seeds())),
{
    let mut i: usize = 0;
    while i < items.len()
        invariant
            i <= items@.len(),
            store.committed() == seed_list(Seq::empty(), plan + each(items@.take(i as int), region_seeds())),
        decreases items.len() - i,
    {
        let x = items[i];
        let ghost mut cur = plan + each(items@.take(i as int), region_seeds());
        plant_fact(store, x.id, temperature(), Value::Int(x.temperature_centi_c), Ghost(cur));
        proof {
            cur = cur.push(plant(x.id, temperature(), Value::Int(x.temperature_centi_c)));
        }
        if let Some(e) = x.elevation {
            plant_fact(store, x.id, elevation(), Value::Int(e), Ghost(cur));
            proof {
                cur = cur.push(plant(x.id, elevation(), Value::Int(e)));
            }
        }
        proof {
            lemma_each_step(items@, region_seeds(), i as int);
            assert(cur =~= plan + each(items@.take(i + 1), region_seeds()));
        }
        i = i + 1;
    }
    assert(items@.take(i as int) =~= items@);
}

/// Seed each organism's place in its region.
fn seed_placements(store: &mut MemoryStore, items: &Vec<OrganismSpec>, Ghost(plan): Ghost<Seq<Triple>>)
    requires
        old(store).committed() == seed_list(Seq::empty(), plan),
    ensures
        final(store).committed() == seed_list(Seq::empty(), plan + each(items@, placement_seeds())),
{
    let mut i: usize = 0;
    while i < items.len()
        invariant
            i <= items@.len(),
            store.committed() == seed_list(Seq::empty(), plan + each(items@.take(i as int), placement_seeds())),
        decreases items.len() - i,
    {
        let x = items[i];
        let ghost cur = plan + each(items@.take(i as int), placement_seeds());
        plant_fact(store, x.id, contained_in(), Value::Entity(EntityId::from_raw(x.region_id)), Ghost(cur));
        proof {
            lemma_each_step(items@, placement_seeds(), i as int);
            assert(cur.push(plant(x.id, contained_in(), Value::Entity(EntityId(x.region_id))))
                =~= plan + each(items@.take(i + 1), placement_seeds()));
        }
        i = i + 1;
    }
    assert(items@.take(i as int) =~= items@);
}

/// Seed each declared containment link.
fn seed_containment(store: &mut MemoryStore, items: &Vec<ContainmentSpec>, Ghost(plan): Ghost<Seq<Triple>>)
    requires
        old(store).committed() == seed_list(Seq::empty(), plan),
    ensures
        final(store).committed() == seed_list(Seq::empty(), plan + each(items@, containment_seeds())),
{
    let mut i: usize = 0;
    while i < items.len()
        invariant
            i <= items@.len(),
            store.committed() == seed_list(Seq::empty(), plan + each(items@.take(i as int), containment_seeds())),
        decreases items.len() - i,
    {
        let x = items[i];
        let ghost cur = plan + each(items@.take(i as int), containment_seeds());
        plant_fact(store, x.child_id, contained_in(), Value::Entity(EntityId::from_raw(x.parent_id)), Ghost(cur));
        proof {
            lemma_each_step(items@, containment_seeds(), i as int);
            assert(cur.push(plant(x.child_id, contained_in(), Value::Entity(EntityId(x.parent_id))))
                =~= plan + each(items@.take(i + 1), containment_seeds()));
        }
        i = i + 1;
    }
    assert(items@.take(i as int) =~= items@);
}

/// Seed each adjacency edge in both directions.
fn seed_adjacency(store: &mut MemoryStore, items: &Vec<AdjacencySpec>, Ghost(plan): Ghost<Seq<Triple>>)
    requires
        old(store).committed() == seed_list(Seq::empty(), plan),
    ensures
        final(store).committed() == seed_list(Seq::empty(), plan + each(items@, adjacency_seeds())),
{
    let mut i: usize = 0;
    while i < items.len()
        invariant
            i <= items@.len(),
            store.committed() == seed_list(Seq::empty(), plan + each(items@.take(i as int), adjacency_seeds())),
        decreases items.len() - i,
    {
        let x = items[i];
        let ghost mut cur = plan + each(items@.take(i as int), adjacency_seeds());
        plant_fact(store, x.a, adjacent_to(), Value::Entity(EntityId::from_raw(x.b)), Ghost(cur));
        proof {
            cur = cur.push(plant(x.a, adjacent_to(), Value::Entity(EntityId(x.b))));
        }
        plant_fact(store, x.b, adjacent_to(), Value::Entity(EntityId::from_raw(x.a)), Ghost(cur));
        proof {
            cur = cur.push(plant(x.b, adjacent_to(), Value::Entity(EntityId(x.a))));
            lemma_each_step(items@, adjacency_seeds(), i as int);
            assert(cur =~= plan + each(items@.take(i + 1), adjacency_seeds()));
        }
        i = i + 1;
    }
    assert(items@.take(i as int) =~= items@);
}

/// Seed each region's exposure.
fn seed_exposure(store: &mut MemoryStore, items: &Vec<ExposureSpec>, Ghost(plan): Ghost<Seq<Triple>>)
    requires
        old(store).committed() == seed_list(Seq::empty(), plan),
    ensures
        final(store).committed() == seed_list(Seq::empty(), plan + each(items@, exposure_seeds())),
{
    let mut i: usize = 0;
    while i < items.len()
        invariant
            i <= items@.len(),
            store.committed() == seed_list(Seq::empty(), plan + each(items@.take(i as int), exposure_seeds())),
        decreases items.len() - i,
    {
        let x = items[i];
        let ghost cur = plan + each(items@.take(i as int), exposure_seeds());
        plant_fact(store, x.region_id, exposure(), Value::Int(x.exposure), Ghost(cur));
        proof {
            lemma_each_step(items@, exposure_seeds(), i as int);
            assert(cur.push(plant(x.region_id, exposure(), Value::Int(x.exposure)))
                =~= plan + each(items@.take(i + 1), exposure_seeds()));
        }
        i = i + 1;
    }
    assert(items@.take(i as int) =~= items@);
}

/// Seed each declared position.
fn seed_positions(store: &mut MemoryStore, items: &Vec<PositionSpec>, Ghost(plan): Ghost<Seq<Triple>>)
    requires
        old(store).committed() == seed_list(Seq::empty(), plan),
    ensures
        final(store).committed() == seed_list(Seq::empty(), plan + each(items@, position_seeds())),
{
    let mut i: usize = 0;
    while i < items.len()
        invariant
            i <= items@.len(),
            store.committed() == seed_list(Seq::empty(), plan + each(items@.take(i as int), position_seeds())),
        decreases items.len() - i,
    {
        let x = items[i];
        let ghost cur = plan + each(items@.take(i as int), position_seeds());
        plant_spot(store, x.entity_id, x.x, x.y, x.z, Ghost(cur));
        proof {
            lemma_each_step(items@, position_seeds(), i as int);
            assert(cur + spot(x.entity_id, x.x, x.y, x.z) =~= plan + each(items@.take(i + 1), position_seeds()));
        }
        i = i + 1;
    }
    assert(items@.take(i as int) =~= items@);
}

/// Seed each portal: its place, its spot, its far side, and its host's listing.
fn seed_portals(store: &mut MemoryStore, items: &Vec<PortalSpec>, Ghost(plan): Ghost<Seq<Triple>>)
    requires
        old(store).committed() == seed_list(Seq::empty(), plan),
    ensures
        final(store).committed() == seed_list(Seq::empty(), plan + each(items@, portal_seeds())),
{
    let mut i: usize = 0;
    while i < items.len()
        invariant
            i <= items@.len(),
            store.committed() == seed_list(Seq::empty(), plan + each(items@.take(i as int), portal_seeds())),
        decreases items.len() - i,
    {
        let x = items[i];
        let ghost mut cur = plan + each(items@.take(i as int), portal_seeds());
        let ghost start = cur;
        plant_fact(store, x.portal_id, contained_in(), Value::Entity(EntityId::from_raw(x.host_region)), Ghost(cur));
        proof {
            cur = cur.push(plant(x.portal_id, contained_in(), Value::Entity(EntityId(x.host_region))));
        }
        plant_spot(store, x.portal_id, x.x, x.y, x.z, Ghost(cur));
        proof {
            cur = cur + spot(x.portal_id, x.x, x.y, x.z);
        }
        plant_fact(store, x.portal_id, leads_to(), Value::Entity(EntityId::from_raw(x.dest_region)), Ghost(cur));
        proof {
            cur = cur.push(plant(x.portal_id, leads_to(), Value::Entity(EntityId(x.dest_region))));
        }
        plant_fact(store, x.host_region, has_portal(), Value::Entity(EntityId::from_raw(x.portal_id)), Ghost(cur));
        proof {
            cur = cur.push(plant(x.host_region, has_portal(), Value::Entity(EntityId(x.portal_id))));
            lemma_each_step(items@, portal_seeds(), i as int);
            assert(cur =~= start + portal_seeds()(x));
            assert(cur =~= plan + each(items@.take(i + 1), portal_seeds()));
        }
        i = i + 1;
    }
    assert(items@.take(i as int) =~= items@);
}

/// Seed each portal's pinned danger.
fn seed_dangers(store: &mut MemoryStore, items: &Vec<PortalDangerSpec>, Ghost(plan): Ghost<Seq<Triple>>)
    requires
        old(store).committed() == seed_list(Seq::empty(), plan),
    ensures
        final(store).committed() == seed_list(Seq::empty(), plan + each(items@, danger_seeds())),
{
    let mut i: usize = 0;
    while i < items.len()
        invariant
            i <= items@.len(),
            store.committed() == seed_list(Seq::empty(), plan + each(items@.take(i as int), danger_seeds())),
        decreases items.len() - i,
    {
        let x = items[i];
        let ghost cur = plan + each(items@.take(i as int), danger_seeds());
        plant_fact(store, x.portal_id, portal_danger_override(), Value::Int(x.danger), Ghost(cur));
        proof {
            lemma_each_step(items@, danger_seeds(), i as int);
            assert(cur.push(plant(x.portal_id, portal_danger_override(), Value::Int(x.danger)))
                =~= plan + each(items@.take(i + 1), danger_seeds()));
        }
        i = i + 1;
    }
    assert(items@.take(i as int) =~= items@);
}

/// Seed one material's declared properties.
fn seed_properties(store: &mut MemoryStore, m: &MaterialSpec, Ghost(plan): Ghost<Seq<Triple>>)
    requires
        old(store).committed() == seed_list(Seq::empty(), plan),
    ensures
        final(store).committed() == seed_list(Seq::empty(), plan + material_seeds()(*m)),
{
    let mut i: usize = 0;
    while i < m.properties.len()
        invariant
            i <= m.properties@.len(),
            store.committed() == seed_list(
                Seq::empty(),
                plan + each(m.properties@.take(i as int), property_seeds(m.id)),
            ),
        decreases m.properties.len() - i,
    {
        let (p, v) = m.properties[i];
        let ghost cur = plan + each(m.properties@.take(i as int), property_seeds(m.id));
        plant_fact(store, m.id, property_fact_type(p), Value::Int(v), Ghost(cur));
        proof {
            lemma_each_step(m.properties@, property_seeds(m.id), i as int);
            assert(cur.push(plant(m.id, property_type(p), Value::Int(v))) =~= plan + each(
                m.properties@.take(i + 1),
                property_seeds(m.id),
            ));
        }
        i = i + 1;
    }
    assert(m.properties@.take(i as int) =~= m.properties@);
}

/// Seed every material's properties.
fn seed_materials(store: &mut MemoryStore, items: &Vec<MaterialSpec>, Ghost(plan): Ghost<Seq<Triple>>)
    requires
        old(store).committed() == seed_list(Seq::empty(), plan),
    ensures
        final(store).committed() == seed_list(Seq::empty(), plan + each(items@, material_seeds())),
{
    let mut i: usize = 0;
    while i < items.len()
        invariant
            i <= items@.len(),
            store.committed() == seed_list(Seq::empty(), plan + each(items@.take(i as int), material_seeds())),
        decreases items.len() - i,
    {
        let ghost cur = plan + each(items@.take(i as int), material_seeds());
        seed_properties(store, &items[i], Ghost(cur));
        proof {
            lemma_each_step(items@, material_seeds(), i as int);
            assert(cur + material_seeds()(items@[i as int]) =~= plan + each(
                items@.take(i + 1),
                material_seeds(),
            ));
        }
        i = i + 1;
    }
    assert(items@.take(i as int) =~= items@);
}

/// Seed each composition link.
fn seed_made_of(store: &mut MemoryStore, items: &Vec<MadeOfSpec>, Ghost(plan): Ghost<Seq<Triple>>)
    requires
        old(store).committed() == seed_list(Seq::empty(), plan),
    ensures
        final(store).committed() == seed_list(Seq::empty(), plan + each(items@, made_of_seeds())),
{
    let mut i: usize = 0;
    while i < items.len()
        invariant
            i <= items@.len(),
            store.committed() == seed_list(Seq::empty(), plan + each(items@.take(i as int), made_of_seeds())),
        decreases items.len() - i,
    {
        let x = items[i];
        let ghost cur = plan + each(items@.take(i as int), made_of_seeds());
        plant_fact(store, x.object_id, made_of(), Value::Entity(EntityId::from_raw(x.material_id)), Ghost(cur));
        proof {
            lemma_each_step(items@, made_of_seeds(), i as int);
            assert(cur.push(plant(x.object_id, made_of(), Value::Entity(EntityId(x.material_id))))
                =~= plan + each(items@.take(i + 1), made_of_seeds()));
        }
        i = i + 1;
    }
    assert(items@.take(i as int) =~= items@);
}

/// Seed each organism's body heat.
fn seed_heat(store: &mut MemoryStore, items: &Vec<OrganismSpec>, Ghost(plan): Ghost<Seq<Triple>>)
    requires
        old(store).committed() == seed_list(Seq::empty(), plan),
    ensures
        final(store).committed() == seed_list(Seq::empty(), plan + each(items@, heat_seeds())),
{
    let mut i: usize = 0;
    while i < items.len()
        invariant
            i <= items@.len(),
            store.committed() == seed_list(Seq::empty(), plan + each(items@.take(i as int), heat_seeds())),
        decreases items.len() - i,
    {
        let x = items[i];
        let ghost cur = plan + each(items@.take(i as int), heat_seeds());
        plant_fact(store, x.id, body_heat(), Value::Int(x.body_heat_centi_c), Ghost(cur));
        proof {
            lemma_each_step(items@, heat_seeds(), i as int);
            assert(cur.push(plant(x.id, body_heat(), Value::Int(x.body_heat_centi_c)))
                =~= plan + each(items@.take(i + 1), heat_seeds()));
        }
        i = i + 1;
    }
    assert(items@.take(i as int) =~= items@);
}

/// The entities of the declared regions, in order.
fn region_entities(items: &Vec<RegionSpec>) -> (r: Vec<EntityId>)
    ensures
        r@ == items@.map_values(|x: RegionSpec| EntityId(x.id)),
{
    let mut r: Vec<EntityId> = Vec::new();
    let mut i: usize = 0;
    while i < items.len()
        invariant
            i <= items@.len(),
            r@ == items@.take(i as int).map_values(|x: RegionSpec| EntityId(x.id)),
        decreases items.len() - i,
    {
        r.push(EntityId::from_raw(items[i].id));
        assert(items@.take(i + 1).map_values(|x: RegionSpec| EntityId(x.id)) =~= items@.take(
            i as int,
        ).map_values(|x: RegionSpec| EntityId(x.id)).push(EntityId(items@[i as int].id)));
        i = i + 1;
    }
    assert(items@.take(i as int) =~= items@);
    r
}

/// Load a package into a runnable world, enforcing the package contract: the engine must
/// be in the package's range, only known domains may be selected and `physical` must be
/// among them, living needs its rules; then the physical domain is configured over the
/// declared regions, living is configured when selected, and the package's content is
/// seeded as committed facts. `engine` is the version checked against the range; most
/// callers pass [`engine_version`].
pub fn load(package: &WorldPackage, engine: Version) -> (r: Result<LoadedWorld, LoadError>)
    ensures
        !engine_accepts(package.manifest.engine, engine) ==> (r matches Err(
            LoadError::EngineMismatch { required, engine: e },
        ) && required@ == range_text(package.manifest.engine) && e == engine),
        engine_accepts(package.manifest.engine, engine) ==> match selection(
            domain_texts(*package),
        ) {
            Err(name) => r matches Err(LoadError::UnsupportedDomain(d)) && d@ == name,
            Ok((physical, living)) => if !physical {
                r matches Err(LoadError::PhysicalNotSelected)
            } else if living && package.living_rules is None {
                r matches Err(LoadError::LivingRulesMissing)
            } else {
                r matches Ok(w) && w.facts() == seed_list(
                    Seq::empty(),
                    world_seeds(*package, living),
                ) && w.physical_domain().regions@ == region_ids(*package)
                    && w.physical_domain().config == physical_config(package.physical_rules)
                    && w.living_domain() == if living {
                    Some(living_config(package.living_rules.unwrap()))
                } else {
                    None::<LivingDomain>
                }
            },
        },
{
    let req = package.manifest.engine;
    if !req.accepts(engine) {
        let lo = req.min.render();
        let hi = req.max.render();
        let a = joined(">=", lo.as_str(), ", <");
        let required = joined(a.as_str(), hi.as_str(), "");
        proof {
            reveal_strlit("");
            assert(required@ =~= range_text(req));
        }
        return Err(LoadError::EngineMismatch { required, engine });
    }
    let ghost names = domain_texts(*package);
    let mut has_physical = false;
    let mut has_living = false;
    let mut i: usize = 0;
    while i < package.manifest.domains.len()
        invariant
            i <= package.manifest.domains@.len(),
            names == domain_texts(*package),
            engine_accepts(package.manifest.engine, engine),
            selection(names.take(i as int)) == Ok::<(bool, bool), Seq<char>>(
                (has_physical, has_living),
            ),
        decreases package.manifest.domains.len() - i,
    {
        let d = &package.manifest.domains[i];
        assert(names.take(i + 1).drop_last() =~= names.take(i as int));
        assert(names.take(i + 1).last() == d@);
        if text_is(d, "physical") {
            has_physical = true;
        } else if text_is(d, "living") {
            has_living = true;
        } else {
            proof {
                lemma_selection_stays_failed(names, i + 1);
            }
            return Err(LoadError::UnsupportedDomain(d.clone()));
        }
        i = i + 1;
    }
    assert(names.take(i as int) =~= names);
    if !has_physical {
        return Err(LoadError::PhysicalNotSelected);
    }
    let living = if has_living {
        match package.living_rules {
            Some(rules) => Some(
                LivingDomain::new(rules.set_point_centi_c, rules.warm_response, rules.cold_response),
            ),
            None => {
                return Err(LoadError::LivingRulesMissing);
            },
        }
    } else {
        None
    };
    let rules = package.physical_rules;
    let config = PhysicalConfig {
        ticks_per_day: rules.ticks_per_day,
        diurnal_amplitude_centi_c: rules.diurnal_amplitude_centi_c,
        weather_max_swing_centi_c: rules.weather_max_swing_centi_c,
        illumination_peak: rules.illumination_peak,
        humidity_baseline: rules.humidity_baseline,
        humidity_swing: rules.humidity_swing,
        humidity_drying_divisor: rules.humidity_drying_divisor,
        pressure_sea_level: rules.pressure_sea_level,
        pressure_elevation_factor: rules.pressure_elevation_factor,
        pressure_weather_swing: rules.pressure_weather_swing,
        pressure_settle_divisor: rules.pressure_settle_divisor,
        wind_gradient_divisor: rules.wind_gradient_divisor,
        fall_danger_per_meter: rules.fall_danger_per_meter,
        thermal_mass_reference: match rules.thermal_mass_reference {
            Some(v) => v,
            None => 0,
        },
    };
    let physical = PhysicalDomain::new(region_entities(&package.regions), config);

    let mut store = MemoryStore::new();
    let ghost mut plan: Seq<Triple> = Seq::empty();
    seed_regions(&mut store, &package.regions, Ghost(plan));
    proof {
        plan = plan + each(package.regions@, region_seeds());
    }
    seed_placements(&mut store, &package.organisms, Ghost(plan));
    proof {
        plan = plan + each(package.organisms@, placement_seeds());
    }
    seed_containment(&mut store, &package.containment, Ghost(plan));
    proof {
        plan = plan + each(package.containment@, containment_seeds());
    }
    seed_adjacency(&mut store, &package.adjacency, Ghost(plan));
    proof {
        plan = plan + each(package.adjacency@, adjacency_seeds());
    }
    seed_exposure(&mut store, &package.exposure, Ghost(plan));
    proof {
        plan = plan + each(package.exposure@, exposure_seeds());
    }
    seed_positions(&mut store, &package.positions, Ghost(plan));
    proof {
        plan = plan + each(package.positions@, position_seeds());
    }
    seed_portals(&mut store, &package.portals, Ghost(plan));
    proof {
        plan = plan + each(package.portals@, portal_seeds());
    }
    seed_dangers(&mut store, &package.portal_danger, Ghost(plan));
    proof {
        plan = plan + each(package.portal_danger@, danger_seeds());
    }
    seed_materials(&mut store, &package.materials, Ghost(plan));
    proof {
        plan = plan + each(package.materials@, material_seeds());
    }
    seed_made_of(&mut store, &package.made_of, Ghost(plan));
    proof {
        plan = plan + each(package.made_of@, made_of_seeds());
    }
    if has_living {
        seed_heat(&mut store, &package.organisms, Ghost(plan));
        proof {
            plan = plan + each(package.organisms@, heat_seeds());
        }
    }
    assert(plan =~= world_seeds(*package, has_living));
    Ok(LoadedWorld { store, physical, living })
}

/// Whether `v` is among the committed values at key `k`.
pub open spec fn holds_value(s: Seq<Triple>, k: (u64, Seq<u8>), v: Value) -> bool {
    exists|n: int| 0 <= n < facts_at(s, k).len() && (#[trigger] facts_at(s, k)[n]).value == v
}

/// Whether some triple of the listing sits in the slot of key `k` and value `v`.
spec fn in_slot(s: Seq<Triple>, k: (u64, Seq<u8>), v: Value) -> bool {
    exists|i: int| 0 <= i < s.len() && key_id((#[trigger] s[i]).key) == k && s[i].value == v
}

/// A triple in the slot is read back among the values at its key.
proof fn lemma_in_slot_reads(s: Seq<Triple>, k: (u64, Seq<u8>), v: Value)
    requires
        in_slot(s, k, v),
    ensures
        holds_value(s, k, v),
    decreases s.len(),
{
    let i = choose|i: int| 0 <= i < s.len() && key_id((#[trigger] s[i]).key) == k && s[i].value == v;
    let r = facts_at(s.drop_last(), k);
    if i == s.len() - 1 {
        assert(facts_at(s, k) == r.push(fact_of(s.last())));
        assert(facts_at(s, k)[r.len() as int].value == v);
    } else {
        assert(s.drop_last()[i] == s[i]);
        lemma_in_slot_reads(s.drop_last(), k, v);
        let n = choose|n: int| 0 <= n < r.len() && (#[trigger] r[n]).value == v;
        if key_id(s.last().key) == k {
            assert(facts_at(s, k)[n] == r[n]);
        }
    }
}

/// Seeding keeps every slot and holds the seeded one.
proof fn lemma_seeded_slots(s: Seq<Triple>, t: Triple, k: (u64, Seq<u8>), v: Value)
    ensures
        in_slot(seeded(s, t), key_id(t.key), t.value),
        in_slot(s, k, v) ==> in_slot(seeded(s, t), k, v),
{
    lemma_seeded_shape(s, t);
    let idx = seed_index(s, t);
    let r = seeded(s, t);
    if seed_replaces(s, t) {
        assert(r[idx] == t);
        if in_slot(s, k, v) {
            let i = choose|i: int| 0 <= i < s.len() && key_id((#[trigger] s[i]).key) == k && s[i].value == v;
            if i == idx {
                assert(slot(s[i]) == slot(t));
                assert(key_id(r[i].key) == k && r[i].value == v);
            } else {
                assert(r[i] == s[i]);
            }
        }
    } else {
        assert(r[idx] == t);
        if in_slot(s, k, v) {
            let i = choose|i: int| 0 <= i < s.len() && key_id((#[trigger] s[i]).key) == k && s[i].value == v;
            if i < idx {
                assert(r[i] == s[i]);
            } else {
                assert(r[i + 1] == s[i]);
            }
        }
    }
}

/// After seeding a list, every triple of the list, and every slot held before, is held.
proof fn lemma_seed_list_slots(s: Seq<Triple>, ts: Seq<Triple>, t: Triple)
    requires
        ts.contains(t) || in_slot(s, key_id(t.key), t.value),
    ensures
        in_slot(seed_list(s, ts), key_id(t.key), t.value),
    decreases ts.len(),
{
    if ts.len() > 0 {
        let rest = ts.drop_last();
        if t == ts.last() {
            lemma_seeded_slots(seed_list(s, rest), ts.last(), key_id(t.key), t.value);
        } else {
            if ts.contains(t) {
                let j = choose|j: int| 0 <= j < ts.len() && ts[j] == t;
                assert(rest[j] == t);
            }
            lemma_seed_list_slots(s, rest, t);
            lemma_seeded_slots(seed_list(s, rest), ts.last(), key_id(t.key), t.value);
        }
    }
}

/// The triples an item seeds are among those of its list.
pub proof fn lemma_each_contains<A>(xs: Seq<A>, f: spec_fn(A) -> Seq<Triple>, i: int, j: int)
    requires
        0 <= i < xs.len(),
        0 <= j < f(xs[i]).len(),
    ensures
        each(xs, f).contains(f(xs[i])[j]),
    decreases xs.len(),
{
    let rest = xs.drop_last();
    let head = each(rest, f);
    if i == xs.len() - 1 {
        assert(each(xs, f)[head.len() + j] == f(xs[i])[j]);
    } else {
        assert(rest[i] == xs[i]);
        lemma_each_contains(rest, f, i, j);
        let k = choose|k: int| 0 <= k < head.len() && head[k] == f(xs[i])[j];
        assert(each(xs, f)[k] == head[k]);
    }
}

/// Loading seeds every declaration: each triple the package declares is among the committed
/// values at its key once the world is loaded.
pub proof fn law_load_seeds_every_declaration(p: WorldPackage, living: bool, t: Triple)
    requires
        world_seeds(p, living).contains(t),
    ensures
        holds_value(seed_list(Seq::empty(), world_seeds(p, living)), key_id(t.key), t.value),
{
    lemma_seed_list_slots(Seq::empty(), world_seeds(p, living), t);
    lemma_in_slot_reads(seed_list(Seq::empty(), world_seeds(p, living)), key_id(t.key), t.value);
}

/// A loaded world's adjacency is symmetric: for every declared edge, each region borders
/// the other.
pub proof fn law_loaded_adjacency_is_symmetric(p: WorldPackage, living: bool, i: int)
    requires
        0 <= i < p.adjacency@.len(),
    ensures
        holds_value(
            seed_list(Seq::empty(), world_seeds(p, living)),
            (p.adjacency@[i].a, type_bytes(adjacent_to())),
            Value::Entity(EntityId(p.adjacency@[i].b)),
        ),
        holds_value(
            seed_list(Seq::empty(), world_seeds(p, living)),
            (p.adjacency@[i].b, type_bytes(adjacent_to())),
            Value::Entity(EntityId(p.adjacency@[i].a)),
        ),
{
    let e = p.adjacency@[i];
    let group = each(p.adjacency@, adjacency_seeds());
    lemma_each_contains(p.adjacency@, adjacency_seeds(), i, 0);
    lemma_each_contains(p.adjacency@, adjacency_seeds(), i, 1);
    let ab = plant(e.a, adjacent_to(), Value::Entity(EntityId(e.b)));
    let ba = plant(e.b, adjacent_to(), Value::Entity(EntityId(e.a)));
    let before = each(p.regions@, region_seeds()) + each(p.organisms@, placement_seeds()) + each(
        p.containment@,
        containment_seeds(),
    );
    let after = world_seeds(p, living);
    let ka = choose|k: int| 0 <= k < group.len() && group[k] == ab;
    let kb = choose|k: int| 0 <= k < group.len() && group[k] == ba;
    assert(after[before.len() + ka] == ab);
    assert(after[before.len() + kb] == ba);
    law_load_seeds_every_declaration(p, living, ab);
    law_load_seeds_every_declaration(p, living, ba);
}

/// Names that differ in their first character differ in their bytes.
proof fn lemma_first_char_differs(a: &str, b: &str)
    requires
        a@.len() > 0,
        b@.len() > 0,
        a@[0] != b@[0],
    ensures
        a.spec_bytes() != b.spec_bytes(),
{
    vstd::utf8::encode_utf8_first_scalar(a@);
    vstd::utf8::encode_utf8_first_scalar(b@);
    vstd::utf8::char_u32_cast(a@[0], a@[0] as u32);
    vstd::utf8::char_u32_cast(b@[0], b@[0] as u32);
}

/// Living never writes a physical fact: the one fact type its system writes, body heat, is
/// not among the fact types the physical domain owns, so living changes physical reality
/// only by what physical systems read from committed facts.
pub proof fn law_living_writes_no_physical_fact()
    ensures
        !type_listed(physical_types(), body_heat()),
{
    reveal_strlit("living.vital.body_heat");
    assert forall|i: int| 0 <= i < physical_types().len() implies type_bytes(
        #[trigger] physical_types()[i],
    ) != type_bytes(body_heat()) by {
        reveal_strlit("physical.environment.humidity");
        reveal_strlit("physical.environment.illumination");
        reveal_strlit("physical.environment.pressure");
        reveal_strlit("physical.environment.temperature");
        reveal_strlit("physical.environment.wind_speed");
        reveal_strlit("physical.environment.wind_toward");
        reveal_strlit("physical.material.conductivity");
        reveal_strlit("physical.material.density");
        reveal_strlit("physical.material.flammability");
        reveal_strlit("physical.material.hardness");
        reveal_strlit("physical.material.made_of");
        reveal_strlit("physical.material.thermal_capacity");
        reveal_strlit("physical.material.toxicity");
        reveal_strlit("physical.space.adjacent_to");
        reveal_strlit("physical.space.contained_in");
        reveal_strlit("physical.space.elevation");
        reveal_strlit("physical.space.exposure");
        reveal_strlit("physical.space.has_portal");
        reveal_strlit("physical.space.leads_to");
        reveal_strlit("physical.space.portal_danger");
        reveal_strlit("physical.space.portal_danger_override");
        reveal_strlit("physical.space.position_x");
        reveal_strlit("physical.space.position_y");
        reveal_strlit("physical.space.position_z");
        let t = physical_types()[i];
        assert(t.0@.len() > 0 && t.0@[0] == 'p');
        lemma_first_char_differs(t.0, body_heat().0);
    }
}

} // verus!
