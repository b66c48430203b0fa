//! Region adjacency as a set-valued relationship, the environmental fields, and spatial
//! containment.

use cardinal::kernel::domain::Domain;
use cardinal::kernel::events::ChronicleEntry;
use cardinal::kernel::fact::{Cause, Fact, FactKey, Provenance, SystemId};
use cardinal::kernel::identity::EntityId;
use cardinal::kernel::store::MemoryStore;
use cardinal::kernel::system::CommittedView;
use cardinal::kernel::tick::run_tick;
use cardinal::kernel::value::Value;
use cardinal::physical::schema::{adjacent_to, contained_in, humidity, illumination, PERCENT_FULL};
use cardinal::physical::{PhysicalConfig, PhysicalDomain};
use std::collections::{BTreeSet, VecDeque};

const REGION: EntityId = EntityId(1);

fn edge(store: &mut MemoryStore, a: u64, b: u64) {
    let prov = Provenance::new(SystemId::new("worldgen"), 0, Cause::new("seed"));
    store.seed(
        FactKey::new(EntityId::from_raw(a), adjacent_to()),
        Fact::new(Value::Entity(EntityId::from_raw(b)), prov),
    );
    store.seed(
        FactKey::new(EntityId::from_raw(b), adjacent_to()),
        Fact::new(Value::Entity(EntityId::from_raw(a)), prov),
    );
}

fn neighbours(store: &MemoryStore, region: u64) -> Vec<u64> {
    let mut v: Vec<u64> = store
        .read_all(FactKey::new(EntityId::from_raw(region), adjacent_to()))
        .into_iter()
        .filter_map(|f| match f.value {
            Value::Entity(e) => Some(e.raw()),
            _ => None,
        })
        .collect();
    v.sort_unstable();
    v
}

fn reachable(store: &MemoryStore, start: u64) -> BTreeSet<u64> {
    let mut seen = BTreeSet::new();
    let mut queue = VecDeque::new();
    seen.insert(start);
    queue.push_back(start);
    while let Some(r) = queue.pop_front() {
        for n in neighbours(store, r) {
            if seen.insert(n) {
                queue.push_back(n);
            }
        }
    }
    seen
}

#[test]
fn a_region_has_several_neighbours() {
    let mut store = MemoryStore::new();
    edge(&mut store, 1, 2);
    edge(&mut store, 2, 3);
    edge(&mut store, 2, 4);
    assert_eq!(neighbours(&store, 2), vec![1, 3, 4]);
    assert_eq!(neighbours(&store, 1), vec![2]);
}

#[test]
fn reachability_walks_the_topology() {
    let mut store = MemoryStore::new();
    edge(&mut store, 1, 2);
    edge(&mut store, 2, 3);
    edge(&mut store, 10, 11);
    assert_eq!(reachable(&store, 1), BTreeSet::from([1, 2, 3]));
    assert!(!reachable(&store, 1).contains(&10));
}

fn config() -> PhysicalConfig {
    PhysicalConfig {
        ticks_per_day: 24,
        diurnal_amplitude_centi_c: 500,
        weather_max_swing_centi_c: 50,
        illumination_peak: 10000,
        humidity_baseline: 6000,
        humidity_swing: 100,
        humidity_drying_divisor: 8,
        pressure_sea_level: 10130,
        pressure_elevation_factor: 1,
        pressure_weather_swing: 20,
        pressure_settle_divisor: 8,
        wind_gradient_divisor: 10,
        fall_danger_per_meter: 1500,
        thermal_mass_reference: 0,
    }
}

fn illumination_after(ticks: u64) -> i64 {
    let mut store = MemoryStore::new();
    let domain = PhysicalDomain::new(vec![REGION], config());
    let domains: [&dyn Domain; 1] = [&domain];
    let systems = domain.systems();
    let mut chronicle: Vec<ChronicleEntry> = Vec::new();
    for t in 1..=ticks {
        run_tick(&mut store, &domains, &systems, t, 1, &mut chronicle).expect("tick");
    }
    store
        .read(FactKey::new(REGION, illumination()))
        .expect("illumination created")
        .value
        .as_int()
        .unwrap()
}

#[test]
fn illumination_follows_the_sun() {
    assert_eq!(illumination_after(12), 10000);
    assert_eq!(illumination_after(24), 0);
    let dawn = illumination_after(6);
    assert!(dawn > 0 && dawn < 10000, "dawn={dawn}");
}

#[test]
fn humidity_is_created_at_baseline_and_stays_bounded() {
    let mut store = MemoryStore::new();
    let domain = PhysicalDomain::new(vec![REGION], config());
    let domains: [&dyn Domain; 1] = [&domain];
    let systems = domain.systems();
    let mut chronicle = Vec::new();
    for t in 1..=200 {
        run_tick(&mut store, &domains, &systems, t, 42, &mut chronicle).expect("tick");
    }
    let h = store
        .read(FactKey::new(REGION, humidity()))
        .expect("humidity created")
        .value
        .as_int()
        .unwrap();
    assert!((0..=PERCENT_FULL).contains(&h), "humidity {h} out of range");
    assert!((4000..=8000).contains(&h), "humidity {h} drifted far from baseline 6000");
}

fn containment_chain(store: &MemoryStore, start: EntityId) -> Vec<u64> {
    let mut chain = Vec::new();
    let mut here = start;
    while let Some(fact) = store.read(FactKey::new(here, contained_in())) {
        if let Value::Entity(parent) = fact.value {
            chain.push(parent.raw());
            here = parent;
        } else {
            break;
        }
    }
    chain
}

#[test]
fn containment_forms_a_walkable_hierarchy() {
    let mut store = MemoryStore::new();
    let prov = Provenance::new(SystemId::new("worldgen"), 0, Cause::new("seed"));
    store.seed(
        FactKey::new(EntityId::from_raw(100), contained_in()),
        Fact::new(Value::Entity(EntityId::from_raw(1)), prov),
    );
    store.seed(
        FactKey::new(EntityId::from_raw(1), contained_in()),
        Fact::new(Value::Entity(EntityId::from_raw(1000)), prov),
    );
    assert_eq!(containment_chain(&store, EntityId::from_raw(100)), vec![1, 1000]);
}
