//! Portals: navigational connectivity distinct from adjacency. A portal is a located
//! connection from a spot in one region to another region; a region may host several; a
//! portal's destination can change, and reachability walks the portal graph.

use cardinal::kernel::domain::Domain;
use cardinal::kernel::events::ChronicleEntry;
use cardinal::kernel::fact::{Cause, Fact, FactKey, FactType, Provenance, SystemId};
use cardinal::kernel::identity::EntityId;
use cardinal::kernel::proposal::{Change, Proposal};
use cardinal::kernel::store::MemoryStore;
use cardinal::kernel::system::{Cadence, CommittedView, System, TickContext, FactTypeList, ProposalList, TripleList};
use cardinal::kernel::tick::run_tick;
use cardinal::kernel::value::Value;
use cardinal::physical::schema::{contained_in, has_portal, leads_to, position_x, position_y};
use cardinal::physical::space::{can_reach, destinations, portals_in, position_in, reachable_regions};
use cardinal::physical::{PhysicalConfig, PhysicalDomain};
use std::collections::BTreeSet;

const YARD: u64 = 1;
const GROUND: u64 = 2;
const BASEMENT: u64 = 3;
const SECOND: u64 = 4;
const VAULT: u64 = 5;

fn e(id: u64) -> EntityId {
    EntityId::from_raw(id)
}

fn prov() -> Provenance {
    Provenance::new(SystemId::new("worldgen"), 0, Cause::new("seed"))
}

fn seed(store: &mut MemoryStore, entity: u64, ft: FactType, v: Value) {
    store.seed(FactKey::new(e(entity), ft), Fact::new(v, prov()));
}

/// Add a portal `id` in `host`, leading to `dest`, at local spot (x, y).
fn portal(store: &mut MemoryStore, id: u64, host: u64, dest: u64, x: i64, y: i64) {
    seed(store, id, contained_in(), Value::Entity(e(host)));
    seed(store, id, position_x(), Value::Int(x));
    seed(store, id, position_y(), Value::Int(y));
    seed(store, id, leads_to(), Value::Entity(e(dest)));
    seed(store, host, has_portal(), Value::Entity(e(id)));
}

/// A manor: yard, ground floor, basement, second floor, and a sealed vault.
fn manor() -> MemoryStore {
    let mut s = MemoryStore::new();
    portal(&mut s, 1000, GROUND, YARD, 300, 0);
    portal(&mut s, 1001, YARD, GROUND, 0, 0);
    portal(&mut s, 1002, BASEMENT, GROUND, 100, 0);
    portal(&mut s, 1003, GROUND, BASEMENT, 100, 0);
    portal(&mut s, 1004, SECOND, GROUND, 200, 0);
    portal(&mut s, 1005, GROUND, SECOND, 200, 0);
    s
}

fn regions(set: Vec<EntityId>) -> BTreeSet<u64> {
    set.into_iter().map(|x| x.raw()).collect()
}

#[test]
fn basement_reaches_the_yard_only_through_the_ground_floor() {
    let s = manor();
    assert_eq!(destinations(&s, e(BASEMENT)), vec![e(GROUND)]);
    assert!(can_reach(&s, e(BASEMENT), e(YARD)));
    assert_eq!(
        regions(reachable_regions(&s, e(BASEMENT))),
        BTreeSet::from([YARD, GROUND, BASEMENT, SECOND])
    );
}

#[test]
fn a_sealed_region_cannot_be_left() {
    let s = manor();
    let reach: BTreeSet<EntityId> = reachable_regions(&s, e(VAULT)).into_iter().collect();
    assert_eq!(reach, BTreeSet::from([e(VAULT)]));
    assert!(!can_reach(&s, e(VAULT), e(YARD)));
    assert!(!can_reach(&s, e(BASEMENT), e(VAULT)));
}

#[test]
fn a_region_can_host_several_portals() {
    let s = manor();
    let mut ps: Vec<u64> = portals_in(&s, e(GROUND)).iter().map(|p| p.raw()).collect();
    ps.sort_unstable();
    assert_eq!(ps, vec![1000, 1003, 1005]);
}

#[test]
fn a_portal_is_a_locatable_spot() {
    let s = manor();
    assert_eq!(position_in(&s, e(1000), e(GROUND)), Some([300, 0, 0]));
}

/// A system that re-targets a portal by assigning its destination.
struct RerouteGate {
    portal: EntityId,
    new_dest: EntityId,
}

impl System for RerouteGate {
    fn declared_writes(&self) -> FactTypeList {
        unreachable!("declared for verification only")
    }
    fn declared_reads(&self) -> FactTypeList {
        unreachable!("declared for verification only")
    }
    fn evaluated(&self, _committed: TripleList, _ctx: TickContext) -> ProposalList {
        unreachable!("declared for verification only")
    }
    fn declared_id(&self) -> SystemId {
        self.id()
    }
    fn declared_cadence(&self) -> Cadence {
        self.cadence()
    }
    fn id(&self) -> SystemId {
        SystemId::new("test.reroute_gate")
    }
    fn reads(&self) -> Vec<FactType> {
        Vec::new()
    }
    fn writes(&self) -> Vec<FactType> {
        vec![leads_to()]
    }
    fn cadence(&self) -> Cadence {
        Cadence::EveryTick
    }
    fn evaluate(&self, _v: &dyn CommittedView, ctx: &TickContext) -> Vec<Proposal> {
        vec![Proposal::new(
            self.id(),
            FactKey::new(self.portal, leads_to()),
            ctx.basis_tick(),
            Change::Assign(Value::Entity(self.new_dest)),
            Cause::new("reroute"),
        )]
    }
}

fn config() -> PhysicalConfig {
    PhysicalConfig {
        ticks_per_day: 24,
        diurnal_amplitude_centi_c: 400,
        weather_max_swing_centi_c: 40,
        illumination_peak: 10000,
        humidity_baseline: 5500,
        humidity_swing: 80,
        humidity_drying_divisor: 8,
        pressure_sea_level: 10130,
        pressure_elevation_factor: 1,
        pressure_weather_swing: 20,
        pressure_settle_divisor: 8,
        wind_gradient_divisor: 10,
        fall_danger_per_meter: 1500,
        thermal_mass_reference: 1000,
    }
}

#[test]
fn changing_a_portals_destination_reroutes_connectivity() {
    let mut s = manor();
    assert!(can_reach(&s, e(BASEMENT), e(YARD)));
    assert!(!can_reach(&s, e(BASEMENT), e(VAULT)));

    let domain = PhysicalDomain::new(Vec::new(), config());
    let domains: [&dyn Domain; 1] = [&domain];
    let mut systems = domain.systems();
    systems.push(Box::new(RerouteGate { portal: e(1002), new_dest: e(VAULT) }));
    let mut chronicle: Vec<ChronicleEntry> = Vec::new();
    run_tick(&mut s, &domains, &systems, 1, 0, &mut chronicle).expect("tick commits");

    assert!(!can_reach(&s, e(BASEMENT), e(YARD)));
    assert!(can_reach(&s, e(BASEMENT), e(VAULT)));
}
