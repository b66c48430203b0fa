//! Living Systems: body-heat composition, and body heat responding to the temperature of
//! the region an organism inhabits. Physical containment and temperature are seeded directly
//! by their published ids, standing in for a running physical domain.

use cardinal::kernel::domain::{Domain, Resolved};
use cardinal::kernel::events::ChronicleEntry;
use cardinal::kernel::fact::{Cause, Fact, FactKey, Provenance, SystemId};
use cardinal::kernel::identity::EntityId;
use cardinal::kernel::proposal::Change;
use cardinal::kernel::store::MemoryStore;
use cardinal::kernel::system::CommittedView;
use cardinal::kernel::tick::run_tick;
use cardinal::kernel::value::Value;
use cardinal::living::composition::compose_body_heat;
use cardinal::living::schema::{ambient_temperature, body_heat, contained_in, BODY_HEAT_FLOOR_CENTI_C};
use cardinal::living::LivingDomain;

const REGION: EntityId = EntityId(1);
const ORGANISM: EntityId = EntityId(100);

#[test]
fn deltas_sum_onto_current() {
    let r = compose_body_heat(Some(Value::Int(3700)), &[Change::Delta(-200), Change::Delta(50)])
        .unwrap();
    assert_eq!(r, Resolved::Write(Value::Int(3550)));
}

#[test]
fn two_competing_sets_conflict() {
    let err = compose_body_heat(
        None,
        &[Change::Assign(Value::Int(3700)), Change::Assign(Value::Int(3600))],
    );
    assert!(err.is_err());
}

fn seed_int(store: &mut MemoryStore, key: FactKey, v: i64) {
    store.seed(key, fact(Value::Int(v)));
}

fn fact(v: Value) -> Fact {
    Fact::new(v, Provenance::new(SystemId::new("worldgen"), 0, Cause::new("seed")))
}

/// Settle an organism (starting at 37.00 C body heat, placed in a region held at `ambient`)
/// for `ticks` ticks, and return its final body heat.
fn settled_body_heat(ambient: i64, ticks: u64) -> i64 {
    let mut store = MemoryStore::new();
    store.seed(FactKey::new(ORGANISM, contained_in()), fact(Value::Entity(REGION)));
    seed_int(&mut store, FactKey::new(REGION, ambient_temperature()), ambient);
    seed_int(&mut store, FactKey::new(ORGANISM, body_heat()), 3700);

    let domain = LivingDomain::new(3700, 6, 3);
    let domains: [&dyn Domain; 1] = [&domain];
    let systems = domain.systems();
    let mut chronicle: Vec<ChronicleEntry> = Vec::new();

    for t in 1..=ticks {
        run_tick(&mut store, &domains, &systems, t, 0, &mut chronicle).expect("tick commits");
    }
    store.read(FactKey::new(ORGANISM, body_heat())).unwrap().value.as_int().unwrap()
}

#[test]
fn body_heat_settles_colder_in_a_colder_region() {
    let cold = settled_body_heat(-500, 300);
    let warm = settled_body_heat(2500, 300);
    assert!(cold < warm, "cold={cold} should be < warm={warm}");
    assert!(warm < 3700, "environment holds body heat below the 37.00 C set point");
    assert!(cold > BODY_HEAT_FLOOR_CENTI_C);
}

#[test]
fn no_proposal_without_a_region() {
    let mut store = MemoryStore::new();
    seed_int(&mut store, FactKey::new(ORGANISM, body_heat()), 3700);
    let domain = LivingDomain::new(3700, 6, 3);
    let domains: [&dyn Domain; 1] = [&domain];
    let systems = domain.systems();
    let mut chronicle = Vec::new();
    for t in 1..=20 {
        run_tick(&mut store, &domains, &systems, t, 0, &mut chronicle).unwrap();
    }
    assert!(chronicle.is_empty(), "no region -> no body-heat change");
    assert_eq!(store.read(FactKey::new(ORGANISM, body_heat())).unwrap().value.as_int().unwrap(), 3700);
}
