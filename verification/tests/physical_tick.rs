//! Environmental facts living through the real tick loop, reconciled by the physical
//! domain's composition and guarded by its validation; and exposure to the open sky
//! attenuating surface weather.

use cardinal::kernel::domain::Domain;
use cardinal::kernel::events::ChronicleEntry;
use cardinal::kernel::fact::{Cause, Fact, FactKey, FactType, Provenance, SystemId};
use cardinal::kernel::identity::EntityId;
use cardinal::kernel::proposal::{Change, Proposal};
use cardinal::kernel::store::{MemoryStore, RealityStore};
use cardinal::kernel::system::{Cadence, CommittedView, System, TickContext, FactTypeList, ProposalList, TripleList};
use cardinal::kernel::tick::{run_tick, TickError};
use cardinal::kernel::value::Value;
use cardinal::physical::schema::{exposure, illumination, temperature, ABSOLUTE_ZERO_CENTI_C};
use cardinal::physical::{PhysicalConfig, PhysicalDomain};

const REGION: EntityId = EntityId(1);
const SEED_TEMP_CENTI_C: i64 = 2000;

fn config() -> PhysicalConfig {
    PhysicalConfig {
        ticks_per_day: 24,
        diurnal_amplitude_centi_c: 500,
        weather_max_swing_centi_c: 50,
        illumination_peak: 10000,
        humidity_baseline: 6000,
        humidity_swing: 100,
        humidity_drying_divisor: 8,
        pressure_sea_level: 10130,
        pressure_elevation_factor: 1,
        pressure_weather_swing: 20,
        pressure_settle_divisor: 8,
        wind_gradient_divisor: 10,
        fall_danger_per_meter: 1500,
        thermal_mass_reference: 0,
    }
}

fn prov() -> Provenance {
    Provenance::new(SystemId::new("worldgen"), 0, Cause::new("seed"))
}

fn seeded_world() -> MemoryStore {
    let mut store = MemoryStore::new();
    store.seed(
        FactKey::new(REGION, temperature()),
        Fact::new(Value::Int(SEED_TEMP_CENTI_C), prov()),
    );
    store
}

fn run_hashes(seed: u64, ticks: u64) -> Vec<[u8; 32]> {
    let mut store = seeded_world();
    let domain = PhysicalDomain::new(Vec::new(), config());
    let domains: [&dyn Domain; 1] = [&domain];
    let systems = domain.systems();
    let mut chronicle: Vec<ChronicleEntry> = Vec::new();
    let mut seq = vec![*store.state_hash().as_bytes()];
    for t in 1..=ticks {
        run_tick(&mut store, &domains, &systems, t, seed, &mut chronicle).expect("tick commits");
        seq.push(*store.state_hash().as_bytes());
    }
    seq
}

#[test]
fn tick_loop_commits_and_chronicles_the_environment() {
    let mut store = seeded_world();
    let domain = PhysicalDomain::new(Vec::new(), config());
    let domains: [&dyn Domain; 1] = [&domain];
    let systems = domain.systems();
    let mut chronicle = Vec::new();

    run_tick(&mut store, &domains, &systems, 1, 42, &mut chronicle).expect("tick commits");

    let temp = store
        .read(FactKey::new(REGION, temperature()))
        .expect("temperature committed")
        .value
        .as_int()
        .expect("temperature is integer");
    assert!(temp >= ABSOLUTE_ZERO_CENTI_C);
    // Tick 1 commits five environmental proposals: temperature moved by two systems, plus
    // illumination, humidity and pressure. Wind waits for committed pressure.
    assert_eq!(chronicle.len(), 5);
    assert!(chronicle.iter().any(|e| e.fact_type() == temperature()));
}

#[test]
fn same_seed_is_bit_identical() {
    assert_eq!(run_hashes(42, 240), run_hashes(42, 240));
}

#[test]
fn different_seed_diverges() {
    let a = run_hashes(42, 240);
    let b = run_hashes(43, 240);
    assert_ne!(a, b);
    assert_eq!(a[0], b[0]);
}

/// A system proposing an impossible plunge in temperature.
struct FreezeRay;

impl System for FreezeRay {
    fn declared_writes(&self) -> FactTypeList {
        unreachable!("declared for verification only")
    }
    fn declared_reads(&self) -> FactTypeList {
        unreachable!("declared for verification only")
    }
    fn evaluated(&self, _committed: TripleList, _ctx: TickContext) -> ProposalList {
        unreachable!("declared for verification only")
    }
    fn declared_id(&self) -> SystemId {
        self.id()
    }
    fn declared_cadence(&self) -> Cadence {
        self.cadence()
    }
    fn id(&self) -> SystemId {
        SystemId::new("test.freeze_ray")
    }
    fn reads(&self) -> Vec<FactType> {
        vec![temperature()]
    }
    fn writes(&self) -> Vec<FactType> {
        vec![temperature()]
    }
    fn cadence(&self) -> Cadence {
        Cadence::EveryTick
    }
    fn evaluate(&self, _view: &dyn CommittedView, ctx: &TickContext) -> Vec<Proposal> {
        vec![Proposal::new(
            self.id(),
            FactKey::new(REGION, temperature()),
            ctx.basis_tick(),
            Change::Delta(-1_000_000_000),
            Cause::new("test_freeze"),
        )]
    }
}

#[test]
fn validation_failure_aborts_the_tick() {
    let mut store = seeded_world();
    let domain = PhysicalDomain::new(Vec::new(), config());
    let domains: [&dyn Domain; 1] = [&domain];
    let systems: Vec<Box<dyn System>> = vec![Box::new(FreezeRay)];
    let mut chronicle = Vec::new();

    let before = store.state_hash();
    let result = run_tick(&mut store, &domains, &systems, 1, 42, &mut chronicle);

    assert!(matches!(result, Err(TickError::Validate(_))));
    assert_eq!(store.state_hash(), before);
    assert!(chronicle.is_empty());
}

fn run(store: &mut MemoryStore, regions: &[EntityId], ticks: u64) {
    let domain = PhysicalDomain::new(regions.to_vec(), config());
    let domains: [&dyn Domain; 1] = [&domain];
    let systems = domain.systems();
    let mut chronicle: Vec<ChronicleEntry> = Vec::new();
    for t in 1..=ticks {
        run_tick(store, &domains, &systems, t, 42, &mut chronicle).expect("tick commits");
    }
}

fn illumination_of(store: &MemoryStore, region: EntityId) -> i64 {
    store.read(FactKey::new(region, illumination())).and_then(|f| f.value.as_int()).unwrap_or(0)
}

fn temperature_of(store: &MemoryStore, region: EntityId) -> i64 {
    store.read(FactKey::new(region, temperature())).and_then(|f| f.value.as_int()).unwrap_or(0)
}

#[test]
fn illumination_scales_with_exposure() {
    let open = EntityId::from_raw(1);
    let mouth = EntityId::from_raw(2);
    let deep = EntityId::from_raw(3);

    let mut store = MemoryStore::new();
    store.seed(FactKey::new(mouth, exposure()), Fact::new(Value::Int(4000), prov()));
    store.seed(FactKey::new(deep, exposure()), Fact::new(Value::Int(0), prov()));

    run(&mut store, &[open, mouth, deep], 12);

    assert_eq!(illumination_of(&store, open), 10000, "open ground gets full sun");
    assert_eq!(illumination_of(&store, mouth), 4000, "a cave mouth gets 40%");
    assert_eq!(illumination_of(&store, deep), 0, "a sealed chamber stays dark");
}

#[test]
fn a_sealed_chamber_stays_dark_and_thermally_stable() {
    let deep = EntityId::from_raw(1);
    let mut store = MemoryStore::new();
    store.seed(FactKey::new(deep, exposure()), Fact::new(Value::Int(0), prov()));
    store.seed(FactKey::new(deep, temperature()), Fact::new(Value::Int(1000), prov()));

    run(&mut store, &[deep], 48);

    assert_eq!(temperature_of(&store, deep), 1000);
    assert_eq!(illumination_of(&store, deep), 0);
}

#[test]
fn an_exposed_region_moves_while_a_sealed_one_holds() {
    let open = EntityId::from_raw(1);
    let sealed = EntityId::from_raw(2);
    let mut store = MemoryStore::new();
    store.seed(FactKey::new(sealed, exposure()), Fact::new(Value::Int(0), prov()));
    store.seed(FactKey::new(open, temperature()), Fact::new(Value::Int(1000), prov()));
    store.seed(FactKey::new(sealed, temperature()), Fact::new(Value::Int(1000), prov()));

    run(&mut store, &[open, sealed], 12);

    assert_ne!(temperature_of(&store, open), 1000, "open ground warms toward midday");
    assert_eq!(temperature_of(&store, sealed), 1000, "the sealed region holds steady");
}

#[test]
fn absent_exposure_is_fully_exposed() {
    let region = EntityId::from_raw(1);
    let mut store = MemoryStore::new();
    run(&mut store, &[region], 12);
    assert_eq!(illumination_of(&store, region), 10000);
}
