//! The kernel through its real tick loop: set-valued facts accumulating as sets, the
//! twin-run determinism harness, and hermeticity (declared reads, declared writes, the
//! committed basis).

use cardinal::kernel::domain::{ChangeList, Domain, ResolveError, Resolved, ValidationError};
use cardinal::kernel::events::ChronicleEntry;
use cardinal::kernel::fact::{Cardinality, Cause, Fact, FactKey, FactType, Provenance, SystemId};
use cardinal::kernel::hash::{StateHash, StateHasher};
use cardinal::kernel::identity::EntityId;
use cardinal::kernel::proposal::{Change, Proposal};
use cardinal::kernel::rng::SubstreamKey;
use cardinal::kernel::store::{MemoryStore, RealityStore, Resolution};
use cardinal::kernel::system::{Cadence, CommittedView, System, TickContext, FactTypeList, ProposalList, TripleList};
use cardinal::kernel::tick::{resolve_proposals, run_tick, TickError};
use cardinal::kernel::value::Value;
use std::collections::BTreeMap;

const TAGS: FactType = FactType("test.tags");
const ENTITY: EntityId = EntityId(1);

/// A domain owning `TAGS` as a set-valued fact (composed by the kernel via set union).
struct TagDomain;

impl Domain for TagDomain {
    fn owned(&self, ft: FactType) -> bool {
        self.owns(ft)
    }
    fn composed(
        &self,
        _ft: FactType,
        _current: Option<Value>,
        _changes: ChangeList,
    ) -> Result<Resolved, ResolveError> {
        Err(ResolveError::new("cardinality-many: composed by the kernel"))
    }
    fn declared_cardinality(&self, ft: FactType) -> Cardinality {
        self.cardinality(ft)
    }
    fn validated(&self, ft: FactType, value: Resolved) -> Result<(), ValidationError> {
        self.validate(ft, &value)
    }
    fn validate(&self, _ft: FactType, _value: &Resolved) -> Result<(), ValidationError> {
        Ok(())
    }
    fn name(&self) -> &'static str {
        "test"
    }
    fn owns(&self, ft: FactType) -> bool {
        ft == TAGS
    }
    fn cardinality(&self, ft: FactType) -> Cardinality {
        if ft == TAGS {
            Cardinality::Many
        } else {
            Cardinality::One
        }
    }
    fn systems(&self) -> Vec<Box<dyn System>> {
        Vec::new()
    }
    fn compose(
        &self,
        _ft: FactType,
        _current: Option<Value>,
        _changes: &[Change],
    ) -> Result<Resolved, ResolveError> {
        Err(ResolveError::new("cardinality-many: composed by the kernel"))
    }
}

/// A system that adds a fixed tag value to `TAGS`.
struct AddTag(&'static str, i64);

impl System for AddTag {
    fn declared_writes(&self) -> FactTypeList {
        unreachable!("declared for verification only")
    }
    fn declared_reads(&self) -> FactTypeList {
        unreachable!("declared for verification only")
    }
    fn evaluated(&self, _committed: TripleList, _ctx: TickContext) -> ProposalList {
        unreachable!("declared for verification only")
    }
    fn declared_id(&self) -> SystemId {
        self.id()
    }
    fn declared_cadence(&self) -> Cadence {
        self.cadence()
    }
    fn id(&self) -> SystemId {
        SystemId::new(self.0)
    }
    fn reads(&self) -> Vec<FactType> {
        Vec::new()
    }
    fn writes(&self) -> Vec<FactType> {
        vec![TAGS]
    }
    fn cadence(&self) -> Cadence {
        Cadence::EveryTick
    }
    fn evaluate(&self, _v: &dyn CommittedView, ctx: &TickContext) -> Vec<Proposal> {
        vec![Proposal::new(
            self.id(),
            FactKey::new(ENTITY, TAGS),
            ctx.tick(),
            Change::Add(Value::Int(self.1)),
            Cause::new("add_tag"),
        )]
    }
}

/// A system that removes a fixed tag value from `TAGS`.
struct RemoveTag(&'static str, i64);

impl System for RemoveTag {
    fn declared_writes(&self) -> FactTypeList {
        unreachable!("declared for verification only")
    }
    fn declared_reads(&self) -> FactTypeList {
        unreachable!("declared for verification only")
    }
    fn evaluated(&self, _committed: TripleList, _ctx: TickContext) -> ProposalList {
        unreachable!("declared for verification only")
    }
    fn declared_id(&self) -> SystemId {
        self.id()
    }
    fn declared_cadence(&self) -> Cadence {
        self.cadence()
    }
    fn id(&self) -> SystemId {
        SystemId::new(self.0)
    }
    fn reads(&self) -> Vec<FactType> {
        Vec::new()
    }
    fn writes(&self) -> Vec<FactType> {
        vec![TAGS]
    }
    fn cadence(&self) -> Cadence {
        Cadence::EveryTick
    }
    fn evaluate(&self, _v: &dyn CommittedView, ctx: &TickContext) -> Vec<Proposal> {
        vec![Proposal::new(
            self.id(),
            FactKey::new(ENTITY, TAGS),
            ctx.tick(),
            Change::Remove(Value::Int(self.1)),
            Cause::new("remove_tag"),
        )]
    }
}

fn tags(store: &MemoryStore) -> Vec<i64> {
    let mut v: Vec<i64> = store
        .read_all(FactKey::new(ENTITY, TAGS))
        .into_iter()
        .map(|f| f.value.as_int().unwrap())
        .collect();
    v.sort_unstable();
    v
}

#[test]
fn adds_accumulate_as_a_set_over_the_seeded_values() {
    let mut store = MemoryStore::new();
    store.seed(
        FactKey::new(ENTITY, TAGS),
        Fact::new(Value::Int(5), Provenance::new(SystemId::new("worldgen"), 0, Cause::new("seed"))),
    );
    let domain = TagDomain;
    let domains: [&dyn Domain; 1] = [&domain];
    let systems: Vec<Box<dyn System>> =
        vec![Box::new(AddTag("test.add_a", 10)), Box::new(AddTag("test.add_b", 20))];
    let mut chronicle: Vec<ChronicleEntry> = Vec::new();

    run_tick(&mut store, &domains, &systems, 1, 0, &mut chronicle).expect("tick commits");
    assert_eq!(tags(&store), vec![5, 10, 20]);
}

#[test]
fn add_is_idempotent_and_remove_deletes_one_member() {
    let mut store = MemoryStore::new();
    let domain = TagDomain;
    let domains: [&dyn Domain; 1] = [&domain];
    let mut chronicle: Vec<ChronicleEntry> = Vec::new();

    let add: Vec<Box<dyn System>> = vec![
        Box::new(AddTag("test.add_a", 10)),
        Box::new(AddTag("test.add_b", 10)),
        Box::new(AddTag("test.add_c", 20)),
    ];
    run_tick(&mut store, &domains, &add, 1, 0, &mut chronicle).expect("tick");
    assert_eq!(tags(&store), vec![10, 20]);

    let remove: Vec<Box<dyn System>> = vec![Box::new(RemoveTag("test.rm", 10))];
    run_tick(&mut store, &domains, &remove, 2, 0, &mut chronicle).expect("tick");
    assert_eq!(tags(&store), vec![20]);
}

#[test]
fn many_facts_are_deterministic_in_the_state_hash() {
    fn build() -> [u8; 32] {
        let mut store = MemoryStore::new();
        let domain = TagDomain;
        let domains: [&dyn Domain; 1] = [&domain];
        let systems: Vec<Box<dyn System>> = vec![
            Box::new(AddTag("test.add_a", 30)),
            Box::new(AddTag("test.add_b", 10)),
            Box::new(AddTag("test.add_c", 20)),
        ];
        let mut chronicle = Vec::new();
        run_tick(&mut store, &domains, &systems, 1, 0, &mut chronicle).unwrap();
        *store.state_hash().as_bytes()
    }
    assert_eq!(build(), build());
}

/// SplitMix64, a fixed deterministic generator for the stand-in world.
fn splitmix64(mut z: u64) -> u64 {
    z = z.wrapping_add(0x9E37_79B9_7F4A_7C15);
    z = (z ^ (z >> 30)).wrapping_mul(0xBF58_476D_1CE4_E5B9);
    z = (z ^ (z >> 27)).wrapping_mul(0x94D0_49BB_1331_11EB);
    z ^ (z >> 31)
}

/// A single deterministic draw for a world seed and substream key.
fn draw(seed: u64, key: SubstreamKey) -> u64 {
    let mixed = seed ^ splitmix64(u64::from(key.system())) ^ splitmix64(key.tick())
        ^ splitmix64(key.scope());
    splitmix64(mixed)
}

/// A minimal deterministic world: entities (by raw id) mapped to a scalar value.
struct MockWorld {
    facts: BTreeMap<u64, u64>,
}

impl MockWorld {
    fn seeded_initial() -> Self {
        let mut facts = BTreeMap::new();
        for id in 0..8u64 {
            facts.insert(id, id.wrapping_mul(1000));
        }
        Self { facts }
    }

    fn state_hash(&self) -> StateHash {
        let mut h = StateHasher::new();
        let mut buf = [0u8; 16];
        for (id, value) in &self.facts {
            buf[0..8].copy_from_slice(&id.to_le_bytes());
            buf[8..16].copy_from_slice(&value.to_le_bytes());
            h.add_fact(&buf);
        }
        h.finish()
    }

    fn tick(&mut self, seed: u64, tick_no: u64) {
        const SYSTEM: u32 = 1;
        let ids: Vec<u64> = self.facts.keys().copied().collect();
        for id in ids {
            let key = SubstreamKey::new(SYSTEM, tick_no, id);
            let d = draw(seed, key);
            let entry = self.facts.get_mut(&id).expect("id present");
            *entry = entry.wrapping_add(d);
        }
        if tick_no % 5 == 0 {
            let new_id = EntityId::from_raw(1000 + tick_no);
            let key = SubstreamKey::new(SYSTEM, tick_no, new_id.raw());
            self.facts.insert(new_id.raw(), draw(seed, key));
        }
    }
}

fn run(seed: u64, ticks: u64) -> Vec<StateHash> {
    let mut world = MockWorld::seeded_initial();
    let mut seq = Vec::with_capacity(ticks as usize + 1);
    seq.push(world.state_hash());
    for t in 1..=ticks {
        world.tick(seed, t);
        seq.push(world.state_hash());
    }
    seq
}

fn first_divergence(a: &[StateHash], b: &[StateHash]) -> Option<usize> {
    if a.len() != b.len() {
        return Some(a.len().min(b.len()));
    }
    a.iter().zip(b).position(|(x, y)| x != y)
}

#[test]
fn twin_run_is_bit_identical() {
    let a = run(42, 64);
    let b = run(42, 64);
    assert_eq!(a, b, "same seed must reproduce exactly");
    assert_eq!(first_divergence(&a, &b), None);
}

#[test]
fn harness_detects_nondeterminism() {
    let a = run(42, 64);
    let b = run(43, 64);
    assert_ne!(a, b);
    assert_eq!(a[0], b[0]);
    let d = first_divergence(&a, &b).expect("sequences must diverge");
    assert!(d >= 1, "divergence should appear after the initial state, at {d}");
}

#[test]
fn initial_state_is_stable_and_nonempty() {
    let a = run(7, 0);
    let b = run(999, 0);
    assert_eq!(a[0], b[0]);
    assert_ne!(a[0], StateHash::empty());
}

const DECLARED: FactType = FactType("test.declared");
const SNEAKY: FactType = FactType("test.sneaky");
const UNDECLARED: FactType = FactType("test.undeclared");

/// Declares it writes only `DECLARED`, but proposes to `SNEAKY`.
struct LiarSystem;

impl System for LiarSystem {
    fn declared_writes(&self) -> FactTypeList {
        unreachable!("declared for verification only")
    }
    fn declared_reads(&self) -> FactTypeList {
        unreachable!("declared for verification only")
    }
    fn evaluated(&self, _committed: TripleList, _ctx: TickContext) -> ProposalList {
        unreachable!("declared for verification only")
    }
    fn declared_id(&self) -> SystemId {
        self.id()
    }
    fn declared_cadence(&self) -> Cadence {
        self.cadence()
    }
    fn id(&self) -> SystemId {
        SystemId::new("test.liar")
    }
    fn reads(&self) -> Vec<FactType> {
        Vec::new()
    }
    fn writes(&self) -> Vec<FactType> {
        vec![DECLARED]
    }
    fn cadence(&self) -> Cadence {
        Cadence::EveryTick
    }
    fn evaluate(&self, _view: &dyn CommittedView, ctx: &TickContext) -> Vec<Proposal> {
        vec![Proposal::new(
            self.id(),
            FactKey::new(EntityId::from_raw(1), SNEAKY),
            ctx.basis_tick(),
            Change::Assign(Value::Int(1)),
            Cause::new("sneak"),
        )]
    }
}

#[test]
fn undeclared_write_is_rejected_and_reality_untouched() {
    let mut store = MemoryStore::new();
    let no_domains: [&dyn Domain; 0] = [];
    let systems: Vec<Box<dyn System>> = vec![Box::new(LiarSystem)];
    let mut chronicle: Vec<ChronicleEntry> = Vec::new();

    let before = store.state_hash();
    let result = run_tick(&mut store, &no_domains, &systems, 1, 7, &mut chronicle);

    match result {
        Err(TickError::UndeclaredWrite { system, fact_type }) => {
            assert_eq!(system, SystemId::new("test.liar"));
            assert_eq!(fact_type, SNEAKY);
        }
        other => panic!("expected UndeclaredWrite, got {other:?}"),
    }
    assert_eq!(store.state_hash(), before);
    assert!(chronicle.is_empty());
}

/// Declares it reads only `DECLARED`, but reaches for `UNDECLARED`.
struct PeekingSystem;

impl System for PeekingSystem {
    fn declared_writes(&self) -> FactTypeList {
        unreachable!("declared for verification only")
    }
    fn declared_reads(&self) -> FactTypeList {
        unreachable!("declared for verification only")
    }
    fn evaluated(&self, _committed: TripleList, _ctx: TickContext) -> ProposalList {
        unreachable!("declared for verification only")
    }
    fn declared_id(&self) -> SystemId {
        self.id()
    }
    fn declared_cadence(&self) -> Cadence {
        self.cadence()
    }
    fn id(&self) -> SystemId {
        SystemId::new("test.peeker")
    }
    fn reads(&self) -> Vec<FactType> {
        vec![DECLARED]
    }
    fn writes(&self) -> Vec<FactType> {
        vec![DECLARED]
    }
    fn cadence(&self) -> Cadence {
        Cadence::EveryTick
    }
    fn evaluate(&self, view: &dyn CommittedView, ctx: &TickContext) -> Vec<Proposal> {
        let _ = view.read(FactKey::new(EntityId::from_raw(1), UNDECLARED));
        vec![Proposal::new(
            self.id(),
            FactKey::new(EntityId::from_raw(1), DECLARED),
            ctx.basis_tick(),
            Change::Assign(Value::Int(1)),
            Cause::new("peek"),
        )]
    }
}

#[test]
fn undeclared_read_is_rejected_and_reality_untouched() {
    let mut store = MemoryStore::new();
    let no_domains: [&dyn Domain; 0] = [];
    let systems: Vec<Box<dyn System>> = vec![Box::new(PeekingSystem)];
    let mut chronicle: Vec<ChronicleEntry> = Vec::new();

    let before = store.state_hash();
    let result = run_tick(&mut store, &no_domains, &systems, 1, 7, &mut chronicle);

    match result {
        Err(TickError::UndeclaredRead { system, fact_type }) => {
            assert_eq!(system, SystemId::new("test.peeker"));
            assert_eq!(fact_type, UNDECLARED);
        }
        other => panic!("expected UndeclaredRead, got {other:?}"),
    }
    assert_eq!(store.state_hash(), before);
    assert!(chronicle.is_empty());
}

/// Declares a basis tick that is not the committed tick it must have read.
struct TimeTravellerSystem;

impl System for TimeTravellerSystem {
    fn declared_writes(&self) -> FactTypeList {
        unreachable!("declared for verification only")
    }
    fn declared_reads(&self) -> FactTypeList {
        unreachable!("declared for verification only")
    }
    fn evaluated(&self, _committed: TripleList, _ctx: TickContext) -> ProposalList {
        unreachable!("declared for verification only")
    }
    fn declared_id(&self) -> SystemId {
        self.id()
    }
    fn declared_cadence(&self) -> Cadence {
        self.cadence()
    }
    fn id(&self) -> SystemId {
        SystemId::new("test.time_traveller")
    }
    fn reads(&self) -> Vec<FactType> {
        Vec::new()
    }
    fn writes(&self) -> Vec<FactType> {
        vec![DECLARED]
    }
    fn cadence(&self) -> Cadence {
        Cadence::EveryTick
    }
    fn evaluate(&self, _view: &dyn CommittedView, _ctx: &TickContext) -> Vec<Proposal> {
        vec![Proposal::new(
            self.id(),
            FactKey::new(EntityId::from_raw(1), DECLARED),
            999,
            Change::Assign(Value::Int(1)),
            Cause::new("time_travel"),
        )]
    }
}

#[test]
fn stale_basis_is_rejected_and_reality_untouched() {
    let mut store = MemoryStore::new();
    let no_domains: [&dyn Domain; 0] = [];
    let systems: Vec<Box<dyn System>> = vec![Box::new(TimeTravellerSystem)];
    let mut chronicle: Vec<ChronicleEntry> = Vec::new();

    let before = store.state_hash();
    let result = run_tick(&mut store, &no_domains, &systems, 5, 7, &mut chronicle);

    match result {
        Err(TickError::StaleBasis { system, expected, found }) => {
            assert_eq!(system, SystemId::new("test.time_traveller"));
            assert_eq!(expected, 4);
            assert_eq!(found, 999);
        }
        other => panic!("expected StaleBasis, got {other:?}"),
    }
    assert_eq!(store.state_hash(), before);
    assert!(chronicle.is_empty());
}

/// Adds a tag only on every fourth tick.
struct SlowTag;

impl System for SlowTag {
    fn declared_writes(&self) -> FactTypeList {
        unreachable!("declared for verification only")
    }
    fn declared_reads(&self) -> FactTypeList {
        unreachable!("declared for verification only")
    }
    fn evaluated(&self, _committed: TripleList, _ctx: TickContext) -> ProposalList {
        unreachable!("declared for verification only")
    }
    fn declared_id(&self) -> SystemId {
        self.id()
    }
    fn declared_cadence(&self) -> Cadence {
        self.cadence()
    }
    fn id(&self) -> SystemId {
        SystemId::new("test.slow_tag")
    }
    fn reads(&self) -> Vec<FactType> {
        Vec::new()
    }
    fn writes(&self) -> Vec<FactType> {
        vec![TAGS]
    }
    fn cadence(&self) -> Cadence {
        Cadence::EveryNTicks(4)
    }
    fn evaluate(&self, _v: &dyn CommittedView, ctx: &TickContext) -> Vec<Proposal> {
        vec![Proposal::new(
            self.id(),
            FactKey::new(ENTITY, TAGS),
            ctx.tick(),
            Change::Add(Value::Int(7)),
            Cause::new("slow_tag"),
        )]
    }
}

#[test]
fn a_tick_with_no_due_system_succeeds_and_changes_nothing() {
    let mut store = MemoryStore::new();
    store.seed(
        FactKey::new(ENTITY, TAGS),
        Fact::new(Value::Int(5), Provenance::new(SystemId::new("worldgen"), 0, Cause::new("seed"))),
    );
    let no_domains: [&dyn Domain; 0] = [];
    let systems: Vec<Box<dyn System>> = vec![Box::new(SlowTag)];
    let mut chronicle: Vec<ChronicleEntry> = Vec::new();
    let before = store.state_hash();

    assert_eq!(run_tick(&mut store, &no_domains, &systems, 3, 0, &mut chronicle), Ok(()));
    assert_eq!(store.state_hash(), before);
    assert_eq!(tags(&store), vec![5]);
    assert!(chronicle.is_empty());

    let none: Vec<Box<dyn System>> = Vec::new();
    assert_eq!(run_tick(&mut store, &no_domains, &none, 4, 0, &mut chronicle), Ok(()));
    assert_eq!(store.state_hash(), before);

    // On tick 4 the system is due, and nobody owns what it proposes.
    assert_eq!(
        run_tick(&mut store, &no_domains, &systems, 4, 0, &mut chronicle),
        Err(TickError::Unowned(TAGS))
    );
    assert_eq!(store.state_hash(), before);
    assert!(chronicle.is_empty());
}

#[test]
fn the_first_domain_that_owns_a_fact_type_resolves_it() {
    let mut store = MemoryStore::new();
    let first = TagDomain;
    let second = TagDomain;
    let domains: [&dyn Domain; 2] = [&first, &second];
    let systems: Vec<Box<dyn System>> = vec![Box::new(AddTag("test.add_a", 10))];
    let mut chronicle: Vec<ChronicleEntry> = Vec::new();
    assert_eq!(run_tick(&mut store, &domains, &systems, 1, 0, &mut chronicle), Ok(()));
    assert_eq!(tags(&store), vec![10]);
}


#[test]
fn resolve_step_groups_per_key_and_keeps_every_cause() {
    let mut store = MemoryStore::new();
    store.seed(
        FactKey::new(ENTITY, TAGS),
        Fact::new(Value::Int(5), Provenance::new(SystemId::new("worldgen"), 0, Cause::new("seed"))),
    );
    let domain = TagDomain;
    let domains: [&dyn Domain; 1] = [&domain];
    let key = FactKey::new(ENTITY, TAGS);
    let proposals = vec![
        Proposal::new(SystemId::new("test.a"), key, 0, Change::Add(Value::Int(20)), Cause::new("first")),
        Proposal::new(SystemId::new("test.b"), key, 0, Change::Add(Value::Int(10)), Cause::new("second")),
    ];
    let (rs, cs) = resolve_proposals(&store, &domains, &proposals, 1).expect("resolves");
    assert_eq!(rs.len(), 1);
    assert_eq!(cs, vec![vec![Cause::new("first"), Cause::new("second")]]);
    match &rs[0] {
        Resolution::Many { key: k, facts } => {
            assert_eq!(*k, key);
            let vals: Vec<i64> = facts.iter().map(|f| f.value.as_int().unwrap()).collect();
            assert_eq!(vals, vec![5, 10, 20]);
            assert!(facts.iter().all(|f| f.provenance.system == SystemId::new("test.a")));
        }
        other => panic!("expected a set resolution, got {other:?}"),
    }

    let no_domains: [&dyn Domain; 0] = [];
    assert_eq!(
        resolve_proposals(&store, &no_domains, &proposals, 1).map(|_| ()),
        Err(TickError::Unowned(TAGS))
    );
    let set_to = vec![Proposal::new(
        SystemId::new("test.a"),
        key,
        0,
        Change::Assign(Value::Int(1)),
        Cause::new("assign"),
    )];
    assert!(matches!(
        resolve_proposals(&store, &domains, &set_to, 1),
        Err(TickError::Resolve(_))
    ));
}
