//! The kernel's small pieces: the state digest, containment hierarchies, identities, the
//! store's queries and incremental digest, scoped views, and the stage order.

use cardinal::kernel::fact::{Cause, Fact, FactKey, FactType, Provenance, SystemId};
use cardinal::kernel::hash::{StateHash, StateHasher};
use cardinal::kernel::hierarchy::{ancestry, lowest_common_ancestor};
use cardinal::kernel::identity::EntityId;
use cardinal::kernel::store::{triple_bytes, CommitBatch, MemoryStore, RealityStore, Resolution};
use cardinal::kernel::system::{CommittedView, ScopedView};
use cardinal::kernel::tick::Stage;
use cardinal::kernel::triples::Triple;
use cardinal::kernel::value::Value;

fn hash_facts(facts: &[&[u8]]) -> StateHash {
    let mut h = StateHasher::new();
    for f in facts {
        h.add_fact(f);
    }
    h.finish()
}

#[test]
fn empty_differs_from_nonempty() {
    assert_ne!(StateHash::empty(), StateHash::from_bytes([1u8; 32]));
}

#[test]
fn equal_bytes_equal_hash() {
    assert_eq!(StateHash::from_bytes([7u8; 32]), StateHash::from_bytes([7u8; 32]));
}

#[test]
fn new_hasher_is_empty() {
    assert_eq!(StateHasher::new().finish(), StateHash::empty());
}

#[test]
fn hash_is_order_independent() {
    let a = &b"entity:1|value:10"[..];
    let b = &b"entity:2|value:20"[..];
    let c = &b"entity:3|value:30"[..];
    assert_eq!(hash_facts(&[a, b, c]), hash_facts(&[c, a, b]));
    assert_eq!(hash_facts(&[a, b, c]), hash_facts(&[b, c, a]));
}

#[test]
fn changing_a_fact_changes_the_hash() {
    let base = hash_facts(&[&b"entity:1|value:10"[..], &b"entity:2|value:20"[..]]);
    let changed = hash_facts(&[&b"entity:1|value:11"[..], &b"entity:2|value:20"[..]]);
    assert_ne!(base, changed);
}

#[test]
fn adding_a_fact_changes_the_hash() {
    let base = hash_facts(&[&b"entity:1|value:10"[..]]);
    let bigger = hash_facts(&[&b"entity:1|value:10"[..], &b"entity:2|value:20"[..]]);
    assert_ne!(base, bigger);
}

#[test]
fn remove_exactly_inverts_add() {
    let a = &b"entity:1|value:10"[..];
    let b = &b"entity:2|value:20"[..];
    let c = &b"entity:3|value:30"[..];
    let mut h = StateHasher::new();
    h.add_fact(a);
    h.add_fact(b);
    h.add_fact(c);
    h.remove_fact(b);
    assert_eq!(h.finish(), hash_facts(&[a, c]));
    h.remove_fact(a);
    h.remove_fact(c);
    assert_eq!(h.finish(), StateHash::empty());
}

const LINK: FactType = FactType("test.parent");

fn parent(store: &mut MemoryStore, child: u64, parent: u64) {
    store.seed(
        FactKey::new(EntityId::from_raw(child), LINK),
        Fact::new(
            Value::Entity(EntityId::from_raw(parent)),
            Provenance::new(SystemId::new("t"), 0, Cause::new("seed")),
        ),
    );
}

#[test]
fn ancestry_walks_to_the_root() {
    let mut store = MemoryStore::new();
    parent(&mut store, 3, 2);
    parent(&mut store, 2, 1);
    let path: Vec<u64> = ancestry(&store, EntityId::from_raw(3), LINK).iter().map(|e| e.raw()).collect();
    assert_eq!(path, vec![3, 2, 1]);
}

#[test]
fn lca_finds_the_deepest_shared_container() {
    let mut store = MemoryStore::new();
    parent(&mut store, 10, 2);
    parent(&mut store, 11, 2);
    parent(&mut store, 2, 1);
    parent(&mut store, 20, 3);
    parent(&mut store, 3, 1);
    let e = EntityId::from_raw;
    assert_eq!(lowest_common_ancestor(&store, e(10), e(20), LINK), Some(e(1)));
    assert_eq!(lowest_common_ancestor(&store, e(10), e(11), LINK), Some(e(2)));
    assert_eq!(lowest_common_ancestor(&store, e(10), e(99), LINK), None);
}

#[test]
fn ids_order_by_raw_value() {
    assert!(EntityId::from_raw(1) < EntityId::from_raw(2));
}

const HEAT: FactType = FactType("test.heat");
const NEIGHBOUR: FactType = FactType("test.neighbour");

fn fact(v: i64) -> Fact {
    Fact::new(Value::Int(v), Provenance::new(SystemId::new("t"), 0, Cause::new("seed")))
}

/// The digest a fresh rescan of `store` would produce.
fn rescan_hash(store: &MemoryStore) -> StateHash {
    let mut hasher = StateHasher::new();
    for e in 0..100u64 {
        for (key, f) in store.facts_of(EntityId::from_raw(e)) {
            let t = Triple { key, value: f.value, provenance: f.provenance };
            hasher.add_fact(&triple_bytes(&t));
        }
    }
    hasher.finish()
}

#[test]
fn incremental_hash_matches_full_rescan() {
    let e1 = EntityId::from_raw(1);
    let e2 = EntityId::from_raw(2);
    let mut store = MemoryStore::new();
    store.seed(FactKey::new(e1, HEAT), fact(10));
    store.seed(FactKey::new(e2, NEIGHBOUR), fact(1));
    store.seed(FactKey::new(e2, NEIGHBOUR), fact(3));
    assert_eq!(store.state_hash(), rescan_hash(&store));

    let mut batch = CommitBatch::new(1);
    batch.resolutions.push(Resolution::One { key: FactKey::new(e1, HEAT), fact: fact(11) });
    batch.resolutions.push(Resolution::Many {
        key: FactKey::new(e2, NEIGHBOUR),
        facts: vec![fact(3), fact(5)],
    });
    store.apply(batch);
    assert_eq!(store.state_hash(), rescan_hash(&store));

    let mut clear = CommitBatch::new(2);
    clear.resolutions.push(Resolution::Clear { key: FactKey::new(e1, HEAT) });
    store.apply(clear);
    assert_eq!(store.state_hash(), rescan_hash(&store));
}

#[test]
fn entities_with_tracks_commits() {
    let e1 = EntityId::from_raw(1);
    let e2 = EntityId::from_raw(2);
    let mut store = MemoryStore::new();
    store.seed(FactKey::new(e2, HEAT), fact(20));
    store.seed(FactKey::new(e1, HEAT), fact(10));
    assert_eq!(store.entities_with(HEAT), vec![e1, e2]);
    assert!(store.entities_with(NEIGHBOUR).is_empty());

    let mut batch = CommitBatch::new(1);
    batch.resolutions.push(Resolution::Clear { key: FactKey::new(e1, HEAT) });
    store.apply(batch);
    assert_eq!(store.entities_with(HEAT), vec![e2]);
}

#[test]
fn facts_of_returns_only_that_entity() {
    let e1 = EntityId::from_raw(1);
    let e2 = EntityId::from_raw(2);
    let mut store = MemoryStore::new();
    store.seed(FactKey::new(e1, HEAT), fact(10));
    store.seed(FactKey::new(e1, NEIGHBOUR), fact(2));
    store.seed(FactKey::new(e2, HEAT), fact(20));
    let of_e1 = store.facts_of(e1);
    assert_eq!(of_e1.len(), 2);
    assert!(of_e1.iter().all(|(k, _)| k.entity == e1));
}

const A: FactType = FactType("test.a");
const B: FactType = FactType("test.b");

#[test]
fn scoped_view_hides_undeclared_fact_types() {
    let e = EntityId::from_raw(1);
    let fact = Fact::new(Value::Int(5), Provenance::new(SystemId::new("t"), 0, Cause::new("seed")));
    let mut inner = MemoryStore::new();
    inner.seed(FactKey::new(e, A), fact);
    inner.seed(FactKey::new(e, B), fact);

    let scoped = ScopedView::new(&inner, &[A]);
    assert!(scoped.read(FactKey::new(e, A)).is_some());
    assert!(scoped.read(FactKey::new(e, B)).is_none());
}

#[test]
fn order_has_seven_stages_commit_before_chronicle() {
    let order = Stage::order();
    assert_eq!(order.len(), 7);
    let commit = order.iter().position(|s| *s == Stage::Commit).unwrap();
    let chronicle = order.iter().position(|s| *s == Stage::Chronicle).unwrap();
    assert!(commit < chronicle);
}

fn prov(cause: &'static str) -> Provenance {
    Provenance::new(SystemId::new("test.seed"), 0, Cause::new(cause))
}

#[test]
fn reseeding_a_present_value_refreshes_provenance_only() {
    let key = FactKey::new(EntityId(7), FactType::new("test.colour"));
    let mut store = MemoryStore::new();
    store.seed(key, Fact::new(Value::Int(3), prov("first")));
    let len = store.len();
    let hash = store.state_hash();
    store.seed(key, Fact::new(Value::Int(3), prov("again")));
    assert_eq!(store.len(), len);
    assert_eq!(store.state_hash(), hash);
    assert_eq!(store.read_all(key), vec![Fact::new(Value::Int(3), prov("again"))]);
    store.seed(key, Fact::new(Value::Int(9), prov("new")));
    assert_eq!(store.len(), len + 1);
    assert_eq!(store.entities_with(FactType::new("test.colour")), vec![EntityId(7)]);
}

#[test]
fn within_a_batch_the_last_write_to_a_key_wins() {
    let key = FactKey::new(EntityId(2), FactType::new("test.level"));
    let other = FactKey::new(EntityId(3), FactType::new("test.level"));
    let mut store = MemoryStore::new();
    store.seed(other, Fact::new(Value::Int(1), prov("seed")));
    let mut batch = CommitBatch::new(1);
    batch.resolutions.push(Resolution::One { key, fact: Fact::new(Value::Int(10), prov("a")) });
    batch.resolutions.push(Resolution::One { key, fact: Fact::new(Value::Int(20), prov("b")) });
    batch.resolutions.push(Resolution::Many {
        key,
        facts: vec![Fact::new(Value::Int(5), prov("c")), Fact::new(Value::Int(6), prov("c"))],
    });
    store.apply(batch);
    let vals: Vec<i64> = store.read_all(key).iter().map(|f| f.value.as_int().unwrap()).collect();
    assert_eq!(vals, vec![5, 6]);
    assert_eq!(store.read_all(other), vec![Fact::new(Value::Int(1), prov("seed"))]);
}

#[test]
fn the_digest_ignores_the_order_facts_are_added() {
    let a: &[u8] = b"entity:1|value:10";
    let b: &[u8] = b"entity:2|value:20";
    let c: &[u8] = b"entity:3|value:30";
    assert_eq!(hash_facts(&[a, b, c]), hash_facts(&[c, a, b]));
    assert_eq!(hash_facts(&[a, b, c]), hash_facts(&[b, c, a]));
}
