//! Many regions evolving independently and deterministically, and a portal's danger: pinned
//! by the world when given, otherwise derived from its height.

use cardinal::kernel::domain::Domain;
use cardinal::kernel::events::ChronicleEntry;
use cardinal::kernel::fact::{Cause, Fact, FactKey, FactType, Provenance, SystemId};
use cardinal::kernel::identity::EntityId;
use cardinal::kernel::store::{MemoryStore, RealityStore};
use cardinal::kernel::system::CommittedView;
use cardinal::kernel::tick::run_tick;
use cardinal::kernel::value::Value;
use cardinal::physical::schema::{
    contained_in, has_portal, portal_danger, portal_danger_override, position_z, temperature,
    ABSOLUTE_ZERO_CENTI_C,
};
use cardinal::physical::{PhysicalConfig, PhysicalDomain};

fn config() -> PhysicalConfig {
    PhysicalConfig {
        ticks_per_day: 24,
        diurnal_amplitude_centi_c: 500,
        weather_max_swing_centi_c: 50,
        illumination_peak: 10000,
        humidity_baseline: 6000,
        humidity_swing: 100,
        humidity_drying_divisor: 8,
        pressure_sea_level: 10130,
        pressure_elevation_factor: 1,
        pressure_weather_swing: 20,
        pressure_settle_divisor: 8,
        wind_gradient_divisor: 10,
        fall_danger_per_meter: 1500,
        thermal_mass_reference: 0,
    }
}

fn prov() -> Provenance {
    Provenance::new(SystemId::new("worldgen"), 0, Cause::new("seed"))
}

fn regions(n: u64) -> Vec<EntityId> {
    (1..=n).map(EntityId::from_raw).collect()
}

fn seeded_world(rs: &[EntityId]) -> MemoryStore {
    let mut store = MemoryStore::new();
    for (i, r) in rs.iter().enumerate() {
        let temp = 1500 + (i as i64) * 200;
        store.seed(FactKey::new(*r, temperature()), Fact::new(Value::Int(temp), prov()));
    }
    store
}

fn run_hashes(seed: u64, ticks: u64, rs: &[EntityId]) -> Vec<[u8; 32]> {
    let mut store = seeded_world(rs);
    let domain = PhysicalDomain::new(Vec::new(), config());
    let domains: [&dyn Domain; 1] = [&domain];
    let systems = domain.systems();
    let mut chronicle: Vec<ChronicleEntry> = Vec::new();
    let mut seq = vec![*store.state_hash().as_bytes()];
    for t in 1..=ticks {
        run_tick(&mut store, &domains, &systems, t, seed, &mut chronicle).expect("tick commits");
        seq.push(*store.state_hash().as_bytes());
    }
    seq
}

#[test]
fn regions_evolve_independently_and_validly() {
    let rs = regions(4);
    let mut store = seeded_world(&rs);
    let domain = PhysicalDomain::new(Vec::new(), config());
    let domains: [&dyn Domain; 1] = [&domain];
    let systems = domain.systems();
    let mut chronicle = Vec::new();

    for t in 1..=100 {
        run_tick(&mut store, &domains, &systems, t, 42, &mut chronicle).expect("tick commits");
    }

    let temps: Vec<i64> = rs
        .iter()
        .map(|r| store.read(FactKey::new(*r, temperature())).unwrap().value.as_int().unwrap())
        .collect();

    for t in &temps {
        assert!(*t >= ABSOLUTE_ZERO_CENTI_C);
    }
    assert!(temps.iter().any(|t| *t != temps[0]));
    assert!(chronicle.len() > rs.len() * 100);
}

#[test]
fn multi_region_world_is_deterministic() {
    let rs = regions(4);
    assert_eq!(run_hashes(42, 120, &rs), run_hashes(42, 120, &rs));
    assert_ne!(run_hashes(42, 120, &rs), run_hashes(43, 120, &rs));
}

const GROUND: u64 = 2;
const SECOND: u64 = 4;

fn e(id: u64) -> EntityId {
    EntityId::from_raw(id)
}

fn seed(s: &mut MemoryStore, entity: u64, ft: FactType, v: Value) {
    s.seed(FactKey::new(e(entity), ft), Fact::new(v, prov()));
}

/// A portal `id` hosted in `host` at height `z` (cm); `pin` optionally fixes its danger.
fn portal(s: &mut MemoryStore, id: u64, host: u64, z: i64, pin: Option<i64>) {
    seed(s, host, has_portal(), Value::Entity(e(id)));
    seed(s, id, contained_in(), Value::Entity(e(host)));
    seed(s, id, position_z(), Value::Int(z));
    if let Some(d) = pin {
        seed(s, id, portal_danger_override(), Value::Int(d));
    }
}

fn danger_config() -> PhysicalConfig {
    PhysicalConfig {
        ticks_per_day: 24,
        diurnal_amplitude_centi_c: 400,
        weather_max_swing_centi_c: 40,
        illumination_peak: 10000,
        humidity_baseline: 5500,
        humidity_swing: 80,
        humidity_drying_divisor: 8,
        pressure_sea_level: 10130,
        pressure_elevation_factor: 1,
        pressure_weather_swing: 20,
        pressure_settle_divisor: 8,
        wind_gradient_divisor: 10,
        fall_danger_per_meter: 1500,
        thermal_mass_reference: 0,
    }
}

fn danger(store: &MemoryStore, portal: u64) -> i64 {
    store.read(FactKey::new(e(portal), portal_danger())).and_then(|f| f.value.as_int()).unwrap_or(-1)
}

fn run_once(store: &mut MemoryStore) {
    let domain = PhysicalDomain::new(Vec::new(), danger_config());
    let domains: [&dyn Domain; 1] = [&domain];
    let systems = domain.systems();
    let mut chronicle: Vec<ChronicleEntry> = Vec::new();
    run_tick(store, &domains, &systems, 1, 0, &mut chronicle).expect("tick commits");
}

#[test]
fn danger_is_derived_from_height_when_the_world_gives_none() {
    let mut s = MemoryStore::new();
    portal(&mut s, 1000, GROUND, 0, None);
    portal(&mut s, 1006, SECOND, 600, None);
    run_once(&mut s);
    assert_eq!(danger(&s, 1000), 0);
    assert_eq!(danger(&s, 1006), 9000);
}

#[test]
fn a_world_pinned_danger_overrides_height() {
    let mut s = MemoryStore::new();
    portal(&mut s, 1007, SECOND, 600, Some(10000));
    portal(&mut s, 1008, SECOND, 600, Some(0));
    run_once(&mut s);
    assert_eq!(danger(&s, 1007), 10000);
    assert_eq!(danger(&s, 1008), 0);
}
