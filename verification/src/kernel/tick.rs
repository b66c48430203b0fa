//! The tick pipeline.
//!
//! A tick advances committed reality by exactly one step through seven ordered stages.
//! Systems evaluate hermetically (committed reads scoped to their declared read set in,
//! proposals out); nothing mutates until `commit` calls the store's single write path. A
//! failed tick leaves reality exactly where it was. The narrator runs in `observe` and is
//! never a dependency of the computation, so a full tick runs with the narrator disabled.

use crate::kernel::domain::{Domain, ResolveError, Resolved, ValidationError};
use crate::kernel::events::ChronicleEntry;
use crate::kernel::fact::{
    fnv32, key_id, key_lt, lemma_key_lt_total, lemma_key_lt_transitive, system_bytes, type_bytes,
    type_listed, contains_type, Cardinality, Cause, Fact, FactKey, FactType, Provenance, SystemId,
};
use crate::kernel::order::{
    bytes_lt, lemma_bytes_lt_asymmetric, lemma_bytes_lt_irreflexive, lemma_bytes_lt_total,
    lemma_bytes_lt_transitive,
};
use crate::kernel::proposal::{Change, Proposal};
use crate::kernel::store::{applied, resolution_key, CommitBatch, RealityStore, Resolution};
use crate::kernel::system::{
    basis_of, due_on, restrict, Cadence, CommittedView, ScopedView, System, TickContext,
};
use crate::kernel::triples::{facts_at, first_at, Triple};
use crate::kernel::value::{lemma_value_lt_total, lemma_value_lt_transitive, value_lt, Value};
use vstd::prelude::*;

verus! {

/// The seven ordered stages of a single tick.
///
/// Order is law: proposals are gathered before they are resolved, resolved before they are
/// validated, validated before the single commit, and only committed reality is chronicled
/// and then observed.
#[derive(Clone, Copy, PartialEq, Eq, PartialOrd, Ord, Hash, Debug, Structural)]
pub enum Stage {
    /// Select which systems run this tick from the cadence calendar.
    Schedule,
    /// Run scheduled systems hermetically over committed reads, gathering proposals.
    Evaluate,
    /// Reconcile competing proposals into a single coherent set.
    Resolve,
    /// Check the resolved set against composition and conservation rules.
    Validate,
    /// Apply the validated set through the store's single write path.
    Commit,
    /// Assemble the append-only, causally linked chronicle from proposal causes.
    Chronicle,
    /// Emit entitled streams to observers and the narrator.
    Observe,
}

/// The position of a stage in the canonical order.
pub open spec fn stage_rank(s: Stage) -> int {
    match s {
        Stage::Schedule => 0,
        Stage::Evaluate => 1,
        Stage::Resolve => 2,
        Stage::Validate => 3,
        Stage::Commit => 4,
        Stage::Chronicle => 5,
        Stage::Observe => 6,
    }
}

impl Stage {
    /// The seven stages in their canonical, non-negotiable execution order.
    pub fn order() -> (r: [Stage; 7])
        ensures
            forall|i: int| 0 <= i < 7 ==> stage_rank(#[trigger] r@[i]) == i,
    {
        [
            Stage::Schedule,
            Stage::Evaluate,
            Stage::Resolve,
            Stage::Validate,
            Stage::Commit,
            Stage::Chronicle,
            Stage::Observe,
        ]
    }
}

/// Why a tick failed. A failed tick never happened: reality stays where it was, and the
/// error names what stopped it.
#[derive(Clone, Copy, PartialEq, Eq, Debug)]
pub enum TickError {
    /// A system proposed a change to a fact type outside its declared write set: a
    /// hermeticity violation caught in Evaluate.
    UndeclaredWrite {
        /// The offending system.
        system: SystemId,
        /// The fact type it tried to write without declaring.
        fact_type: FactType,
    },
    /// A system read a fact type outside its declared read set: the scoped view hid it, and
    /// the tick refuses to let the system act on a silently empty world.
    UndeclaredRead {
        /// The offending system.
        system: SystemId,
        /// The first fact type it reached for without declaring.
        fact_type: FactType,
    },
    /// A proposal declared a basis tick other than the committed state it could have read.
    StaleBasis {
        /// The offending system.
        system: SystemId,
        /// The committed tick the proposal had to read.
        expected: u64,
        /// The basis tick it declared.
        found: u64,
    },
    /// A proposal targeted a fact type no enabled domain owns.
    Unowned(FactType),
    /// Proposals against a fact could not be composed (Resolve stage).
    Resolve(ResolveError),
    /// The resolved batch failed a domain coherence check (Validate stage).
    Validate(ValidationError),
}

// ---- schedule --------------------------------------------------------------------------

/// Whether system `a` runs before system `b`: by name, then by position among the systems.
pub open spec fn runs_before(ids: Seq<SystemId>, a: int, b: int) -> bool {
    bytes_lt(system_bytes(ids[a]), system_bytes(ids[b])) || (system_bytes(ids[a])
        == system_bytes(ids[b]) && a < b)
}

/// The due systems of a tick, in run order: every due system exactly once, sorted by name
/// (a stable sort, so equal names keep their given order).
pub fn schedule(ids: &[SystemId], cadences: &[Cadence], tick: u64) -> (order: Vec<usize>)
    requires
        ids.len() == cadences.len(),
    ensures
        forall|k: int| 0 <= k < order.len() ==> order@[k] < ids.len() && due_on(
            cadences@[order@[k] as int],
            tick,
        ),
        forall|j: int| 0 <= j < ids.len() && due_on(cadences@[j], tick) ==> order@.contains(
            j as usize,
        ),
        forall|a: int, b: int|
            0 <= a < b < order.len() ==> runs_before(
                ids@,
                #[trigger] order@[a] as int,
                #[trigger] order@[b] as int,
            ),
{
    let mut order: Vec<usize> = Vec::new();
    let mut i: usize = 0;
    while i < ids.len()
        invariant
            i <= ids.len(),
            ids.len() == cadences.len(),
            forall|k: int| 0 <= k < order.len() ==> order@[k] < i && due_on(
                cadences@[order@[k] as int],
                tick,
            ),
            forall|j: int| 0 <= j < i && due_on(cadences@[j], tick) ==> order@.contains(
                j as usize,
            ),
            forall|a: int, b: int|
                0 <= a < b < order.len() ==> runs_before(
                    ids@,
                    #[trigger] order@[a] as int,
                    #[trigger] order@[b] as int,
                ),
        decreases ids.len() - i,
    {
        if cadences[i].is_due(tick) {
            let mut p: usize = 0;
            while p < order.len() && !ids[i].precedes(&ids[order[p]])
                invariant
                    p <= order.len(),
                    i < ids.len(),
                    forall|k: int| 0 <= k < order.len() ==> order@[k] < i,
                    forall|q: int|
                        0 <= q < p ==> !bytes_lt(
                            system_bytes(ids@[i as int]),
                            system_bytes(ids@[#[trigger] order@[q] as int]),
                        ),
                decreases order.len() - p,
            {
                p = p + 1;
            }
            let ghost old_order = order@;
            order.insert(p, i);
            proof {
                let me = system_bytes(ids@[i as int]);
                assert forall|q: int| 0 <= q < p implies runs_before(
                    ids@,
                    #[trigger] old_order[q] as int,
                    i as int,
                ) by {
                    lemma_bytes_lt_total(me, system_bytes(ids@[old_order[q] as int]));
                }
                assert forall|q: int| p <= q < old_order.len() implies runs_before(
                    ids@,
                    i as int,
                    #[trigger] old_order[q] as int,
                ) by {
                    let first = system_bytes(ids@[old_order[p as int] as int]);
                    let other = system_bytes(ids@[old_order[q] as int]);
                    if q > p {
                        assert(runs_before(ids@, old_order[p as int] as int, old_order[q] as int));
                        if bytes_lt(first, other) {
                            lemma_bytes_lt_transitive(me, first, other);
                        }
                    }
                }
                assert forall|a: int, b: int| 0 <= a < b < order.len() implies runs_before(
                    ids@,
                    #[trigger] order@[a] as int,
                    #[trigger] order@[b] as int,
                ) by {
                    if a < p && b > p {
                        assert(order@[a] == old_order[a]);
                        assert(order@[b] == old_order[b - 1]);
                        assert(runs_before(ids@, old_order[a] as int, old_order[b - 1] as int));
                    } else if a == p {
                        assert(order@[b] == old_order[b - 1]);
                    } else if b == p {
                        assert(order@[a] == old_order[a]);
                    } else if a > p {
                        assert(order@[a] == old_order[a - 1]);
                        assert(order@[b] == old_order[b - 1]);
                        assert(runs_before(ids@, old_order[a - 1] as int, old_order[b - 1] as int));
                    } else {
                        assert(order@[a] == old_order[a]);
                        assert(order@[b] == old_order[b]);
                        assert(runs_before(ids@, old_order[a] as int, old_order[b] as int));
                    }
                }
                assert forall|j: int| 0 <= j < i + 1 && due_on(cadences@[j], tick) implies order@.contains(
                    j as usize,
                ) by {
                    if j < i {
                        let q = choose|q: int| 0 <= q < old_order.len() && old_order[q] == j as usize;
                        if q < p {
                            assert(order@[q] == j as usize);
                        } else {
                            assert(order@[q + 1] == j as usize);
                        }
                    } else {
                        assert(order@[p as int] == i);
                    }
                }
                assert forall|k: int| 0 <= k < order.len() implies order@[k] < i + 1 && due_on(
                    cadences@[order@[k] as int],
                    tick,
                ) by {
                    if k < p {
                        assert(order@[k] == old_order[k]);
                    } else if k > p {
                        assert(order@[k] == old_order[k - 1]);
                    }
                }
            }
        }
        i = i + 1;
    }
    order
}

// ---- evaluate --------------------------------------------------------------------------

/// Whether a proposal computed at `tick` declares a basis the kernel accepts: the committed
/// tick before it, which is what it read, or the tick itself, which a system stamping the
/// tick it computes (`ctx.tick()`) declares. Anything else, such as a future tick, is a stale
/// basis.
pub open spec fn basis_accepted(found: u64, tick: u64) -> bool {
    found == basis_of(tick) || found == tick
}

/// What is wrong with one emitted proposal, if anything: a write outside the declared write
/// set, else a basis the tick cannot have read.
pub open spec fn proposal_fault(system: SystemId, writes: Seq<FactType>, p: Proposal, tick: u64) -> Option<
    TickError,
> {
    if !type_listed(writes, p.target.fact_type) {
        Some(TickError::UndeclaredWrite { system, fact_type: p.target.fact_type })
    } else if !basis_accepted(p.basis_tick, tick) {
        Some(TickError::StaleBasis { system, expected: basis_of(tick), found: p.basis_tick })
    } else {
        None
    }
}

/// The fault of the first faulty proposal, in emission order.
pub open spec fn first_fault(system: SystemId, writes: Seq<FactType>, ps: Seq<Proposal>, tick: u64) -> Option<
    TickError,
>
    decreases ps.len(),
{
    if ps.len() == 0 {
        None
    } else {
        match proposal_fault(system, writes, ps[0], tick) {
            Some(e) => Some(e),
            None => first_fault(system, writes, ps.drop_first(), tick),
        }
    }
}

/// The verdict on one system's evaluation: an undeclared read first, then the first faulty
/// proposal.
pub open spec fn evaluation_verdict(
    system: SystemId,
    writes: Seq<FactType>,
    emitted: Seq<Proposal>,
    tick: u64,
    undeclared: Option<FactType>,
) -> Result<(), TickError> {
    match undeclared {
        Some(t) => Err(TickError::UndeclaredRead { system, fact_type: t }),
        None => match first_fault(system, writes, emitted, tick) {
            Some(e) => Err(e),
            None => Ok(()),
        },
    }
}

/// Hermetic writes: a clean evaluation (no faulty proposal) proposes only to fact types of
/// the system's declared write set, each with a basis the kernel accepts; a faulty one is
/// refused as an undeclared write or a stale basis.
pub proof fn law_clean_evaluation_writes_only_declared(
    system: SystemId,
    writes: Seq<FactType>,
    ps: Seq<Proposal>,
    tick: u64,
)
    ensures
        first_fault(system, writes, ps, tick) is None ==> forall|j: int|
            0 <= j < ps.len() ==> type_listed(writes, (#[trigger] ps[j]).target.fact_type)
                && basis_accepted(ps[j].basis_tick, tick),
        first_fault(system, writes, ps, tick) matches Some(e) ==> (e is UndeclaredWrite
            || e is StaleBasis),
    decreases ps.len(),
{
    if ps.len() > 0 {
        law_clean_evaluation_writes_only_declared(system, writes, ps.drop_first(), tick);
        if first_fault(system, writes, ps, tick) is None {
            assert forall|j: int| 0 <= j < ps.len() implies type_listed(
                writes,
                (#[trigger] ps[j]).target.fact_type,
            ) && basis_accepted(ps[j].basis_tick, tick) by {
                if j > 0 {
                    assert(ps[j] == ps.drop_first()[j - 1]);
                }
            }
        }
    }
}

/// Check one system's evaluation against its declarations.
pub fn check_evaluation(
    system: SystemId,
    writes: &[FactType],
    emitted: &[Proposal],
    tick: u64,
    undeclared: Option<FactType>,
) -> (r: Result<(), TickError>)
    ensures
        r == evaluation_verdict(system, writes@, emitted@, tick, undeclared),
{
    if let Some(t) = undeclared {
        return Err(TickError::UndeclaredRead { system, fact_type: t });
    }
    let mut i: usize = 0;
    assert(emitted@.skip(0) =~= emitted@);
    while i < emitted.len()
        invariant
            i <= emitted.len(),
            undeclared is None,
            first_fault(system, writes@, emitted@, tick) == first_fault(
                system,
                writes@,
                emitted@.skip(i as int),
                tick,
            ),
        decreases emitted.len() - i,
    {
        let p = emitted[i];
        assert(emitted@.skip(i as int).drop_first() =~= emitted@.skip(i + 1));
        assert(emitted@.skip(i as int)[0] == p);
        if !contains_type(writes, &p.target.fact_type) {
            return Err(TickError::UndeclaredWrite { system, fact_type: p.target.fact_type });
        }
        let expected = if tick == 0 { 0 } else { tick - 1 };
        if p.basis_tick != expected && p.basis_tick != tick {
            return Err(TickError::StaleBasis { system, expected, found: p.basis_tick });
        }
        i = i + 1;
    }
    assert(emitted@.skip(i as int).len() == 0);
    Ok(())
}

// ---- group -----------------------------------------------------------------------------

/// The proposals targeting key `k`, in emission order.
pub open spec fn proposals_at(ps: Seq<Proposal>, k: (u64, Seq<u8>)) -> Seq<Proposal>
    decreases ps.len(),
{
    if ps.len() == 0 {
        Seq::empty()
    } else {
        let r = proposals_at(ps.drop_last(), k);
        if key_id(ps.last().target) == k {
            r.push(ps.last())
        } else {
            r
        }
    }
}

/// Whether some key of `keys` has the identity of `k`.
pub open spec fn key_listed(keys: Seq<FactKey>, k: FactKey) -> bool {
    exists|g: int| 0 <= g < keys.len() && key_id(#[trigger] keys[g]) == key_id(k)
}

/// Keys in strictly ascending key order (so each identity at most once).
pub open spec fn keys_ascending(keys: Seq<FactKey>) -> bool {
    forall|a: int, b: int| 0 <= a < b < keys.len() ==> key_lt(#[trigger] keys[a], #[trigger] keys[b])
}

/// Add `t` to an ascending key list unless its identity is already there.
fn insert_key(keys: &mut Vec<FactKey>, t: FactKey)
    requires
        keys_ascending(old(keys)@),
    ensures
        keys_ascending(final(keys)@),
        forall|x: FactKey| final(keys)@.contains(x) ==> x == t || old(keys)@.contains(x),
        forall|x: FactKey| old(keys)@.contains(x) ==> final(keys)@.contains(x),
        key_listed(final(keys)@, t),
{
    let mut q: usize = 0;
    while q < keys.len() && keys[q].precedes(&t)
        invariant
            q <= keys.len(),
            forall|g: int| 0 <= g < q ==> key_lt(#[trigger] keys@[g], t),
        decreases keys.len() - q,
    {
        q = q + 1;
    }
    if q < keys.len() && keys[q].same(&t) {
        assert(key_id(keys@[q as int]) == key_id(t));
        return;
    }
    let ghost old_keys = keys@;
    keys.insert(q, t);
    proof {
        if q < old_keys.len() {
            lemma_key_lt_total(old_keys[q as int], t);
        }
        assert forall|a: int, b: int| 0 <= a < b < keys.len() implies key_lt(
            #[trigger] keys@[a],
            #[trigger] keys@[b],
        ) by {
            if a < q && b == q {
            } else if a < q && b > q {
                assert(key_lt(old_keys[a], old_keys[b - 1]));
            } else if a == q {
                if b - 1 > q {
                    assert(key_lt(old_keys[q as int], old_keys[b - 1]));
                    lemma_key_lt_transitive(t, old_keys[q as int], old_keys[b - 1]);
                }
            } else if a > q {
                assert(key_lt(old_keys[a - 1], old_keys[b - 1]));
            } else {
                assert(key_lt(old_keys[a], old_keys[b]));
            }
        }
        assert forall|x: FactKey| keys@.contains(x) implies x == t || old_keys.contains(x) by {
            let m = choose|m: int| 0 <= m < keys@.len() && keys@[m] == x;
            if m < q {
                assert(old_keys[m] == x);
            } else if m > q {
                assert(old_keys[m - 1] == x);
            }
        }
        assert forall|x: FactKey| old_keys.contains(x) implies keys@.contains(x) by {
            let m = choose|m: int| 0 <= m < old_keys.len() && old_keys[m] == x;
            if m < q {
                assert(keys@[m] == x);
            } else {
                assert(keys@[m + 1] == x);
            }
        }
        assert(keys@[q as int] == t);
    }
}

/// Every fact key some proposal targets, each once, in ascending key order.
pub fn collect_keys(ps: &[Proposal]) -> (keys: Vec<FactKey>)
    ensures
        keys_ascending(keys@),
        forall|x: FactKey|
            #[trigger] keys@.contains(x) ==> exists|j: int|
                0 <= j < ps.len() && (#[trigger] ps@[j]).target == x,
        forall|j: int| 0 <= j < ps.len() ==> key_listed(keys@, #[trigger] ps@[j].target),
{
    let mut keys: Vec<FactKey> = Vec::new();
    let mut i: usize = 0;
    while i < ps.len()
        invariant
            i <= ps.len(),
            keys_ascending(keys@),
            forall|x: FactKey|
                #[trigger] keys@.contains(x) ==> exists|j: int|
                    0 <= j < i && (#[trigger] ps@[j]).target == x,
            forall|j: int| 0 <= j < i ==> key_listed(keys@, #[trigger] ps@[j].target),
        decreases ps.len() - i,
    {
        let ghost before = keys@;
        insert_key(&mut keys, ps[i].target);
        proof {
            assert forall|x: FactKey| #[trigger] keys@.contains(x) implies exists|j: int|
                0 <= j < i + 1 && (#[trigger] ps@[j]).target == x by {
                if x == ps@[i as int].target {
                } else {
                    assert(before.contains(x));
                }
            }
            assert forall|j: int| 0 <= j < i + 1 implies key_listed(
                keys@,
                #[trigger] ps@[j].target,
            ) by {
                if j < i {
                    assert(key_listed(before, ps@[j].target));
                    let g = choose|g: int|
                        0 <= g < before.len() && key_id(#[trigger] before[g]) == key_id(
                            ps@[j].target,
                        );
                    assert(before.contains(before[g]));
                    assert(keys@.contains(before[g]));
                    let h = choose|h: int| 0 <= h < keys@.len() && keys@[h] == before[g];
                    assert(key_id(keys@[h]) == key_id(ps@[j].target));
                }
            }
        }
        i = i + 1;
    }
    keys
}

/// The proposals targeting `key`, in emission order.
pub fn proposals_for(ps: &[Proposal], key: FactKey) -> (r: Vec<Proposal>)
    ensures
        r@ == proposals_at(ps@, key_id(key)),
{
    let mut r: Vec<Proposal> = Vec::new();
    let mut i: usize = 0;
    while i < ps.len()
        invariant
            i <= ps.len(),
            r@ == proposals_at(ps@.take(i as int), key_id(key)),
        decreases ps.len() - i,
    {
        assert(ps@.take(i + 1).drop_last() =~= ps@.take(i as int));
        if ps[i].target.same(&key) {
            r.push(ps[i]);
        }
        i = i + 1;
    }
    assert(ps@.take(i as int) =~= ps@);
    r
}

/// A proposal targeting a key is among the proposals read at it.
proof fn lemma_proposals_at_nonempty(ps: Seq<Proposal>, k: (u64, Seq<u8>), j: int)
    requires
        0 <= j < ps.len(),
        key_id(ps[j].target) == k,
    ensures
        proposals_at(ps, k).len() > 0,
    decreases ps.len(),
{
    if j < ps.len() - 1 {
        lemma_proposals_at_nonempty(ps.drop_last(), k, j);
    }
}

/// The changes the proposals request, in order.
pub fn changes_of(ps: &[Proposal]) -> (r: Vec<Change>)
    ensures
        r@ == ps@.map_values(|p: Proposal| p.change),
{
    let mut r: Vec<Change> = Vec::new();
    let mut i: usize = 0;
    while i < ps.len()
        invariant
            i <= ps.len(),
            r@ == ps@.take(i as int).map_values(|p: Proposal| p.change),
        decreases ps.len() - i,
    {
        r.push(ps[i].change);
        assert(ps@.take(i + 1).map_values(|p: Proposal| p.change) =~= ps@.take(i as int).map_values(
            |p: Proposal| p.change,
        ).push(ps@[i as int].change));
        i = i + 1;
    }
    assert(ps@.take(i as int) =~= ps@);
    r
}

// ---- resolve ---------------------------------------------------------------------------

/// Whether every change is a set change (an `Add` or a `Remove`).
pub open spec fn all_set_changes(cs: Seq<Change>) -> bool {
    forall|i: int| 0 <= i < cs.len() ==> (#[trigger] cs[i] is Add || cs[i] is Remove)
}

/// Whether `x` is a member of the set that starts as the values of `current` and then takes
/// each change in order: adding a present value or removing an absent one changes nothing.
pub open spec fn member_after(current: Seq<Value>, cs: Seq<Change>, x: Value) -> bool
    decreases cs.len(),
{
    if cs.len() == 0 {
        current.contains(x)
    } else {
        match cs.last() {
            Change::Add(v) => v == x || member_after(current, cs.drop_last(), x),
            Change::Remove(v) => v != x && member_after(current, cs.drop_last(), x),
            _ => member_after(current, cs.drop_last(), x),
        }
    }
}

/// Adds accumulate as a set: after only additions, a value is a member exactly when it was
/// committed or some proposal added it, whatever the order and however often.
pub proof fn law_adds_accumulate_as_a_set(current: Seq<Value>, cs: Seq<Change>, x: Value)
    requires
        forall|i: int| 0 <= i < cs.len() ==> (#[trigger] cs[i]) is Add,
    ensures
        member_after(current, cs, x) == (current.contains(x) || cs.contains(Change::Add(x))),
    decreases cs.len(),
{
    if cs.len() > 0 {
        let rest = cs.drop_last();
        assert forall|i: int| 0 <= i < rest.len() implies (#[trigger] rest[i]) is Add by {
            assert(rest[i] == cs[i]);
        }
        law_adds_accumulate_as_a_set(current, rest, x);
        if cs.last() == Change::Add(x) {
            assert(cs[cs.len() - 1] == Change::Add(x));
        } else {
            assert(cs.contains(Change::Add(x)) == rest.contains(Change::Add(x))) by {
                if cs.contains(Change::Add(x)) {
                    let k = choose|k: int| 0 <= k < cs.len() && cs[k] == Change::Add(x);
                    assert(k < cs.len() - 1);
                    assert(rest[k] == Change::Add(x));
                }
                if rest.contains(Change::Add(x)) {
                    let k = choose|k: int| 0 <= k < rest.len() && rest[k] == Change::Add(x);
                    assert(cs[k] == Change::Add(x));
                }
            }
        }
    }
}

/// Removing a value takes out that member and leaves every other membership as it was.
pub proof fn law_remove_deletes_one_member(current: Seq<Value>, cs: Seq<Change>, v: Value, x: Value)
    ensures
        member_after(current, cs.push(Change::Remove(v)), x) == (x != v && member_after(
            current,
            cs,
            x,
        )),
        member_after(current, cs.push(Change::Add(v)).push(Change::Add(v)), x) == member_after(
            current,
            cs.push(Change::Add(v)),
            x,
        ),
{
    assert(cs.push(Change::Remove(v)).drop_last() =~= cs);
    assert(cs.push(Change::Add(v)).drop_last() =~= cs);
    assert(cs.push(Change::Add(v)).push(Change::Add(v)).drop_last() =~= cs.push(Change::Add(v)));
}

/// Values in strictly ascending value order (so each at most once).
pub open spec fn strictly_ascending(vs: Seq<Value>) -> bool {
    forall|a: int, b: int| 0 <= a < b < vs.len() ==> value_lt(#[trigger] vs[a], #[trigger] vs[b])
}

/// The error for a set-valued fact asked for anything but an `Add` or a `Remove`.
pub open spec fn set_change_error() -> ResolveError {
    ResolveError { reason: "cardinality-many fact accepts only Add/Remove changes" }
}

/// Where `x` belongs in an ascending list: past every value before it.
fn set_position(vals: &Vec<Value>, x: Value) -> (p: usize)
    requires
        strictly_ascending(vals@),
    ensures
        p <= vals.len(),
        forall|q: int| 0 <= q < p ==> value_lt(#[trigger] vals@[q], x),
        p < vals.len() ==> !value_lt(vals@[p as int], x),
{
    let mut p: usize = 0;
    while p < vals.len() && vals[p].precedes(&x)
        invariant
            p <= vals.len(),
            forall|q: int| 0 <= q < p ==> value_lt(#[trigger] vals@[q], x),
        decreases vals.len() - p,
    {
        p = p + 1;
    }
    p
}

/// Add `x` to an ascending set.
fn set_insert(vals: &mut Vec<Value>, x: Value)
    requires
        strictly_ascending(old(vals)@),
    ensures
        strictly_ascending(final(vals)@),
        forall|y: Value| final(vals)@.contains(y) == (y == x || old(vals)@.contains(y)),
{
    let p = set_position(vals, x);
    if p < vals.len() && vals[p] == x {
        return;
    }
    let ghost before = vals@;
    vals.insert(p, x);
    proof {
        if p < before.len() {
            lemma_value_lt_total(before[p as int], x);
        }
        assert forall|a: int, b: int| 0 <= a < b < vals@.len() implies value_lt(
            #[trigger] vals@[a],
            #[trigger] vals@[b],
        ) by {
            if a < p && b == p {
            } else if a < p && b > p {
                assert(value_lt(before[a], before[b - 1]));
            } else if a == p {
                if b - 1 > p {
                    assert(value_lt(before[p as int], before[b - 1]));
                    lemma_value_lt_transitive(x, before[p as int], before[b - 1]);
                }
            } else if a > p {
                assert(value_lt(before[a - 1], before[b - 1]));
            } else {
                assert(value_lt(before[a], before[b]));
            }
        }
        assert forall|y: Value| vals@.contains(y) == (y == x || before.contains(y)) by {
            if vals@.contains(y) {
                let m = choose|m: int| 0 <= m < vals@.len() && vals@[m] == y;
                if m < p {
                    assert(before[m] == y);
                } else if m > p {
                    assert(before[m - 1] == y);
                }
            }
            if before.contains(y) {
                let m = choose|m: int| 0 <= m < before.len() && before[m] == y;
                if m < p {
                    assert(vals@[m] == y);
                } else {
                    assert(vals@[m + 1] == y);
                }
            }
            if y == x {
                assert(vals@[p as int] == x);
            }
        }
    }
}

/// Remove `x` from an ascending set.
fn set_remove(vals: &mut Vec<Value>, x: Value)
    requires
        strictly_ascending(old(vals)@),
    ensures
        strictly_ascending(final(vals)@),
        forall|y: Value| final(vals)@.contains(y) == (y != x && old(vals)@.contains(y)),
{
    let p = set_position(vals, x);
    let ghost before = vals@;
    if p < vals.len() && vals[p] == x {
        vals.remove(p);
        proof {
            assert forall|a: int, b: int| 0 <= a < b < vals@.len() implies value_lt(
                #[trigger] vals@[a],
                #[trigger] vals@[b],
            ) by {
                if a < p && b >= p {
                    assert(value_lt(before[a], before[b + 1]));
                } else if a >= p {
                    assert(value_lt(before[a + 1], before[b + 1]));
                } else {
                    assert(value_lt(before[a], before[b]));
                }
            }
            assert forall|y: Value| vals@.contains(y) == (y != x && before.contains(y)) by {
                if vals@.contains(y) {
                    let m = choose|m: int| 0 <= m < vals@.len() && vals@[m] == y;
                    if m < p {
                        assert(before[m] == y);
                        assert(value_lt(before[m], before[p as int]));
                        lemma_value_lt_total(y, x);
                    } else {
                        assert(before[m + 1] == y);
                        assert(value_lt(before[p as int], before[m + 1]));
                        lemma_value_lt_total(y, x);
                    }
                }
                if before.contains(y) && y != x {
                    let m = choose|m: int| 0 <= m < before.len() && before[m] == y;
                    if m < p {
                        assert(vals@[m] == y);
                    } else if m > p {
                        assert(vals@[m - 1] == y);
                    }
                }
            }
        }
    } else {
        proof {
            assert forall|y: Value| vals@.contains(y) == (y != x && before.contains(y)) by {
                if y == x && before.contains(y) {
                    let m = choose|m: int| 0 <= m < before.len() && before[m] == y;
                    lemma_value_lt_total(before[m], x);
                    if m < p {
                    } else if p < before.len() {
                        if m > p {
                            assert(value_lt(before[p as int], before[m]));
                            lemma_value_lt_total(before[p as int], x);
                        }
                    }
                }
            }
        }
    }
}

/// Compose a set-valued fact: start from the committed values, apply each `Add` and
/// `Remove` in order, and list the members ascending. Any other change is refused.
pub fn compose_set(current: &[Value], changes: &[Change]) -> (r: Result<Vec<Value>, ResolveError>)
    ensures
        r is Ok <==> all_set_changes(changes@),
        r matches Ok(vals) ==> strictly_ascending(vals@) && forall|x: Value|
            vals@.contains(x) == member_after(current@, changes@, x),
        r matches Err(e) ==> e == set_change_error(),
{
    let mut vals: Vec<Value> = Vec::new();
    let mut i: usize = 0;
    while i < current.len()
        invariant
            i <= current.len(),
            strictly_ascending(vals@),
            forall|y: Value| vals@.contains(y) == current@.take(i as int).contains(y),
        decreases current.len() - i,
    {
        set_insert(&mut vals, current[i]);
        proof {
            let t = current@.take(i as int);
            let c = current@[i as int];
            assert(current@.take(i + 1) =~= t.push(c));
            assert forall|y: Value| vals@.contains(y) == t.push(c).contains(y) by {
                if t.contains(y) {
                    let m = choose|m: int| 0 <= m < t.len() && t[m] == y;
                    assert(t.push(c)[m] == y);
                }
                if y == c {
                    assert(t.push(c)[t.len() as int] == y);
                }
                if t.push(c).contains(y) {
                    let m = choose|m: int| 0 <= m < t.push(c).len() && t.push(c)[m] == y;
                    if m < t.len() {
                        assert(t[m] == y);
                    }
                }
            }
        }
        i = i + 1;
    }
    assert(current@.take(i as int) =~= current@);
    let mut j: usize = 0;
    while j < changes.len()
        invariant
            j <= changes.len(),
            strictly_ascending(vals@),
            all_set_changes(changes@.take(j as int)),
            forall|y: Value| vals@.contains(y) == member_after(current@, changes@.take(j as int), y),
        decreases changes.len() - j,
    {
        assert(changes@.take(j + 1).drop_last() =~= changes@.take(j as int));
        assert(changes@.take(j + 1).last() == changes@[j as int]);
        match changes[j] {
            Change::Add(v) => {
                set_insert(&mut vals, v);
            },
            Change::Remove(v) => {
                set_remove(&mut vals, v);
            },
            _ => {
                return Err(ResolveError::new("cardinality-many fact accepts only Add/Remove changes"));
            },
        }
        proof {
            assert forall|k: int| 0 <= k < j + 1 implies (#[trigger] changes@.take(j + 1)[k] is Add
                || changes@.take(j + 1)[k] is Remove) by {
                if k < j {
                    assert(changes@.take(j + 1)[k] == changes@.take(j as int)[k]);
                }
            }
        }
        j = j + 1;
    }
    assert(changes@.take(j as int) =~= changes@);
    Ok(vals)
}

/// The enabled domain that owns a fact type: the first whose answer is yes.
pub fn first_owner(answers: &[bool]) -> (r: Option<usize>)
    ensures
        r matches Some(i) ==> i < answers.len() && answers@[i as int] && forall|j: int|
            0 <= j < i ==> !answers@[j],
        r is None ==> forall|j: int| 0 <= j < answers.len() ==> !answers@[j],
{
    let mut i: usize = 0;
    while i < answers.len()
        invariant
            i <= answers.len(),
            forall|j: int| 0 <= j < i ==> !answers@[j],
        decreases answers.len() - i,
    {
        if answers[i] {
            return Some(i);
        }
        i = i + 1;
    }
    None
}

/// Ask each enabled domain whether it owns `fact_type`, and take the first that does (one
/// fact, one owner).
fn owner_of(domains: &[&dyn Domain], fact_type: FactType) -> (r: Option<usize>)
    ensures
        r matches Some(i) ==> i < domains.len() && domains@[i as int].owned(fact_type) && forall|
            j: int,
        | 0 <= j < i ==> !(#[trigger] domains@[j]).owned(fact_type),
        r is None ==> forall|j: int|
            0 <= j < domains.len() ==> !(#[trigger] domains@[j]).owned(fact_type),
{
    let mut answers: Vec<bool> = Vec::new();
    let mut i: usize = 0;
    while i < domains.len()
        invariant
            i <= domains.len(),
            answers.len() == i,
            forall|j: int| 0 <= j < i ==> answers@[j] == (#[trigger] domains@[j]).owned(fact_type),
        decreases domains.len() - i,
    {
        answers.push(domains[i].owns(fact_type));
        i = i + 1;
    }
    first_owner(answers.as_slice())
}

/// Provenance attribution for a resolved fact: the first proposal in deterministic order,
/// with its system and cause.
pub fn attribution(props: &[Proposal]) -> (r: (SystemId, Cause))
    requires
        props.len() > 0,
    ensures
        r == (props@[0].system, props@[0].cause),
{
    (props[0].system, props[0].cause)
}

/// The resolution a composed cardinality-one outcome commits.
pub open spec fn one_resolution(key: FactKey, resolved: Resolved, provenance: Provenance) -> Resolution {
    match resolved {
        Resolved::Write(v) => Resolution::One { key, fact: Fact { value: v, provenance } },
        Resolved::Tombstone => Resolution::Clear { key },
    }
}

/// The resolution a composed cardinality-one outcome commits.
pub fn resolve_one(key: FactKey, resolved: Resolved, provenance: Provenance) -> (r: Resolution)
    ensures
        r == one_resolution(key, resolved, provenance),
{
    match resolved {
        Resolved::Write(v) => Resolution::One { key, fact: Fact::new(v, provenance) },
        Resolved::Tombstone => Resolution::Clear { key },
    }
}

/// Each member value as a fact with the given provenance.
pub fn facts_with(vals: &[Value], provenance: Provenance) -> (r: Vec<Fact>)
    ensures
        r@ == vals@.map_values(|v: Value| Fact { value: v, provenance }),
{
    let mut r: Vec<Fact> = Vec::new();
    let mut i: usize = 0;
    while i < vals.len()
        invariant
            i <= vals.len(),
            r@ == vals@.take(i as int).map_values(|v: Value| Fact { value: v, provenance }),
        decreases vals.len() - i,
    {
        r.push(Fact::new(vals[i], provenance));
        assert(vals@.take(i + 1).map_values(|v: Value| Fact { value: v, provenance })
            =~= vals@.take(i as int).map_values(|v: Value| Fact { value: v, provenance }).push(
            Fact { value: vals@[i as int], provenance },
        ));
        i = i + 1;
    }
    assert(vals@.take(i as int) =~= vals@);
    r
}

/// The values of a list of facts, in order.
pub fn values_of(facts: &[Fact]) -> (r: Vec<Value>)
    ensures
        r@ == facts@.map_values(|f: Fact| f.value),
{
    let mut r: Vec<Value> = Vec::new();
    let mut i: usize = 0;
    while i < facts.len()
        invariant
            i <= facts.len(),
            r@ == facts@.take(i as int).map_values(|f: Fact| f.value),
        decreases facts.len() - i,
    {
        r.push(facts[i].value);
        assert(facts@.take(i + 1).map_values(|f: Fact| f.value) =~= facts@.take(i as int).map_values(
            |f: Fact| f.value,
        ).push(facts@[i as int].value));
        i = i + 1;
    }
    assert(facts@.take(i as int) =~= facts@);
    r
}

// ---- chronicle -------------------------------------------------------------------------

/// The chronicle entries for the committed proposals to `key`, one per cause, in order.
pub open spec fn entries_for(tick: u64, key: FactKey, causes: Seq<Cause>) -> Seq<ChronicleEntry> {
    causes.map_values(
        |c: Cause| ChronicleEntry { tick, subject: key.entity, fact_type: key.fact_type, cause: c },
    )
}

/// The chronicle entries one committed resolution earns: one per proposal behind a write,
/// from that proposal's cause (`causes`); removals are not chronicled.
pub open spec fn entry_of(tick: u64, r: Resolution, causes: Seq<Cause>) -> Seq<ChronicleEntry> {
    match r {
        Resolution::One { key, .. } => entries_for(tick, key, causes),
        Resolution::Many { key, facts } => if facts@.len() > 0 {
            entries_for(tick, key, causes)
        } else {
            Seq::empty()
        },
        Resolution::Clear { .. } => Seq::empty(),
    }
}

/// The chronicle entries a committed batch earns, in batch order; `cs` holds the causes of
/// each resolution's proposals.
pub open spec fn chronicle_of(tick: u64, rs: Seq<Resolution>, cs: Seq<Seq<Cause>>) -> Seq<
    ChronicleEntry,
>
    decreases rs.len(),
{
    if rs.len() == 0 {
        Seq::empty()
    } else {
        chronicle_of(tick, rs.drop_last(), cs.drop_last()) + entry_of(tick, rs.last(), cs.last())
    }
}

/// The cause a resolution attributes its written values to, if it writes any.
pub open spec fn attributed_cause(r: Resolution) -> Option<Cause> {
    match r {
        Resolution::One { fact, .. } => Some(fact.provenance.cause),
        Resolution::Many { facts, .. } => if facts@.len() > 0 {
            Some(facts@[0].provenance.cause)
        } else {
            None
        },
        Resolution::Clear { .. } => None,
    }
}

/// A resolution committed at `tick` from proposals with `causes`: its values carry the tick,
/// at least one proposal stood behind it, and its values are attributed to the first.
pub open spec fn committed_at(r: Resolution, causes: Seq<Cause>, tick: u64) -> bool {
    &&& resolution_tick(r, tick)
    &&& causes.len() > 0
    &&& attributed_cause(r) matches Some(c) ==> causes[0] == c
}

/// The causes of some proposals, in order.
pub fn causes_of(ps: &[Proposal]) -> (r: Vec<Cause>)
    ensures
        r@ == ps@.map_values(|p: Proposal| p.cause),
{
    let mut r: Vec<Cause> = Vec::new();
    let mut i: usize = 0;
    while i < ps.len()
        invariant
            i <= ps.len(),
            r@ == ps@.take(i as int).map_values(|p: Proposal| p.cause),
        decreases ps.len() - i,
    {
        r.push(ps[i].cause);
        assert(ps@.take(i + 1).map_values(|p: Proposal| p.cause) =~= ps@.take(i as int).map_values(
            |p: Proposal| p.cause,
        ).push(ps@[i as int].cause));
        i = i + 1;
    }
    assert(ps@.take(i as int) =~= ps@);
    r
}

/// The chronicle entries for the committed proposals to `key`, one per cause.
fn entries_of(tick: u64, key: FactKey, causes: &Vec<Cause>, r: &mut Vec<ChronicleEntry>)
    ensures
        final(r)@ == old(r)@ + entries_for(tick, key, causes@),
{
    let ghost start = r@;
    let mut i: usize = 0;
    while i < causes.len()
        invariant
            i <= causes.len(),
            r@ == start + entries_for(tick, key, causes@.take(i as int)),
        decreases causes.len() - i,
    {
        r.push(ChronicleEntry::new(tick, key.entity, key.fact_type, causes[i]));
        assert(entries_for(tick, key, causes@.take(i + 1)) =~= entries_for(
            tick,
            key,
            causes@.take(i as int),
        ).push(
            ChronicleEntry {
                tick,
                subject: key.entity,
                fact_type: key.fact_type,
                cause: causes@[i as int],
            },
        ));
        i = i + 1;
    }
    assert(causes@.take(i as int) =~= causes@);
}

/// The chronicle entries a committed batch earns, in batch order.
pub fn chronicle_entries(tick: u64, rs: &[Resolution], cs: &Vec<Vec<Cause>>) -> (r: Vec<ChronicleEntry>)
    requires
        rs@.len() == cs@.len(),
    ensures
        r@ == chronicle_of(tick, rs@, cs@.map_values(|c: Vec<Cause>| c@)),
{
    let ghost css = cs@.map_values(|c: Vec<Cause>| c@);
    let mut r: Vec<ChronicleEntry> = Vec::new();
    let mut i: usize = 0;
    while i < rs.len()
        invariant
            i <= rs.len(),
            rs@.len() == cs@.len(),
            css == cs@.map_values(|c: Vec<Cause>| c@),
            r@ == chronicle_of(tick, rs@.take(i as int), css.take(i as int)),
        decreases rs.len() - i,
    {
        assert(rs@.take(i + 1).drop_last() =~= rs@.take(i as int));
        assert(css.take(i + 1).drop_last() =~= css.take(i as int));
        assert(css.take(i + 1).last() == cs@[i as int]@);
        let ghost before = r@;
        match &rs[i] {
            Resolution::One { key, .. } => {
                entries_of(tick, *key, &cs[i], &mut r);
            },
            Resolution::Many { key, facts } => {
                if facts.len() > 0 {
                    entries_of(tick, *key, &cs[i], &mut r);
                }
            },
            Resolution::Clear { .. } => {},
        }
        assert(r@ =~= before + entry_of(tick, rs@[i as int], cs@[i as int]@));
        i = i + 1;
    }
    assert(rs@.take(i as int) =~= rs@);
    assert(css.take(i as int) =~= css);
    r
}

// ---- the resolve step -----------------------------------------------------------------

/// Whether domain `i` is the first enabled domain that owns `t`.
pub open spec fn first_owner_is(domains: Seq<&dyn Domain>, t: FactType, i: int) -> bool {
    &&& 0 <= i < domains.len()
    &&& domains[i].owned(t)
    &&& forall|j: int| 0 <= j < i ==> !(#[trigger] domains[j]).owned(t)
}

/// The committed value at a key, if any.
pub open spec fn committed_value(committed: Seq<Triple>, key: FactKey) -> Option<Value> {
    match first_at(committed, key_id(key)) {
        Some(f) => Some(f.value),
        None => None,
    }
}

/// The provenance a tick gives the facts it resolves from `props`: the first proposal's
/// system and cause.
pub open spec fn group_provenance(props: Seq<Proposal>, tick: u64) -> Provenance {
    Provenance { system: props[0].system, tick, cause: props[0].cause }
}

/// What one key resolves to from the proposals `ps`, given committed reality and the enabled
/// domains: `Unowned` when no domain owns its type; otherwise the first owner decides, by
/// the cardinality it declares. A single-valued fact takes the owner's composition of the
/// committed value and the changes, unless the owner's validation refuses it; a set-valued
/// fact takes the committed members with each `Add` and `Remove` applied, ascending, and
/// refuses any other change.
/// Either way the causes are those of the key's proposals, in emission order.
pub open spec fn key_resolves(
    domains: Seq<&dyn Domain>,
    committed: Seq<Triple>,
    ps: Seq<Proposal>,
    key: FactKey,
    tick: u64,
    out: Result<(Resolution, Seq<Cause>), TickError>,
) -> bool {
    let props = proposals_at(ps, key_id(key));
    let changes = props.map_values(|p: Proposal| p.change);
    let causes = props.map_values(|p: Proposal| p.cause);
    let provenance = group_provenance(props, tick);
    let t = key.fact_type;
    if forall|j: int| 0 <= j < domains.len() ==> !(#[trigger] domains[j]).owned(t) {
        out == Err::<(Resolution, Seq<Cause>), TickError>(TickError::Unowned(t))
    } else {
        forall|i: int|
            #[trigger] first_owner_is(domains, t, i) ==> match domains[i].declared_cardinality(t) {
                Cardinality::One => match domains[i].composed(t, committed_value(committed, key), changes) {
                    Err(e) => out == Err::<(Resolution, Seq<Cause>), TickError>(TickError::Resolve(e)),
                    Ok(res) => match domains[i].validated(t, res) {
                        Err(e) => out == Err::<(Resolution, Seq<Cause>), TickError>(
                            TickError::Validate(e),
                        ),
                        Ok(_) => out == Ok::<(Resolution, Seq<Cause>), TickError>(
                            (one_resolution(key, res, provenance), causes),
                        ),
                    },
                },
                Cardinality::Many => if all_set_changes(changes) {
                    &&& out matches Ok((Resolution::Many { key: k, facts }, cs))
                    &&& k == key
                    &&& cs == causes
                    &&& set_resolution(facts@, facts_at(committed, key_id(key)), changes, provenance)
                } else {
                    out == Err::<(Resolution, Seq<Cause>), TickError>(
                        TickError::Resolve(set_change_error()),
                    )
                },
            }
    }
}

/// The members a set-valued fact resolves to: the committed values with each change applied,
/// ascending, each carrying `provenance`.
pub open spec fn set_resolution(
    facts: Seq<Fact>,
    committed: Seq<Fact>,
    changes: Seq<Change>,
    provenance: Provenance,
) -> bool {
    let vals = facts.map_values(|f: Fact| f.value);
    &&& strictly_ascending(vals)
    &&& forall|x: Value|
        vals.contains(x) == member_after(committed.map_values(|f: Fact| f.value), changes, x)
    &&& forall|q: int| 0 <= q < facts.len() ==> (#[trigger] facts[q]).provenance == provenance
}

/// Whether `outs` are the outcomes of resolving `keys` in order: each key's outcome by
/// [`key_resolves`], stopping at the first key that fails.
pub open spec fn outcomes_fit(
    domains: Seq<&dyn Domain>,
    committed: Seq<Triple>,
    ps: Seq<Proposal>,
    keys: Seq<FactKey>,
    tick: u64,
    outs: Seq<Result<(Resolution, Seq<Cause>), TickError>>,
) -> bool {
    &&& outs.len() <= keys.len()
    &&& forall|k: int|
        0 <= k < outs.len() ==> key_resolves(domains, committed, ps, keys[k], tick, #[trigger] outs[k])
    &&& forall|k: int| 0 <= k < outs.len() - 1 ==> (#[trigger] outs[k]) is Ok
    &&& outs.len() < keys.len() ==> outs.len() > 0 && outs.last() is Err
}

/// The resolution of a successful key outcome.
pub open spec fn outcome_resolution(o: Result<(Resolution, Seq<Cause>), TickError>) -> Resolution {
    match o {
        Ok((r, _)) => r,
        Err(_) => arbitrary(),
    }
}

/// The causes of a successful key outcome.
pub open spec fn outcome_causes(o: Result<(Resolution, Seq<Cause>), TickError>) -> Seq<Cause> {
    match o {
        Ok((_, c)) => c,
        Err(_) => arbitrary(),
    }
}

/// The batch a list of key outcomes makes: the failure that stopped it, or every resolution
/// with its causes, in key order.
pub open spec fn batch_of(outs: Seq<Result<(Resolution, Seq<Cause>), TickError>>) -> Result<
    (Seq<Resolution>, Seq<Seq<Cause>>),
    TickError,
> {
    if outs.len() > 0 && outs.last() is Err {
        match outs.last() {
            Err(e) => Err(e),
            Ok(_) => arbitrary(),
        }
    } else {
        Ok((outs.map_values(|o| outcome_resolution(o)), outs.map_values(|o| outcome_causes(o))))
    }
}

/// The keys the proposals target, each once, ascending.
pub open spec fn target_keys(ps: Seq<Proposal>, keys: Seq<FactKey>) -> bool {
    &&& keys_ascending(keys)
    &&& forall|x: FactKey|
        #[trigger] keys.contains(x) ==> exists|j: int| 0 <= j < ps.len() && (#[trigger] ps[j]).target == x
    &&& forall|j: int| 0 <= j < ps.len() ==> key_listed(keys, #[trigger] ps[j].target)
}

/// What a tick's proposals resolve to against committed reality: the keys they target,
/// taken in ascending order, resolved by [`key_resolves`] until one fails.
pub open spec fn tick_resolves(
    domains: Seq<&dyn Domain>,
    committed: Seq<Triple>,
    ps: Seq<Proposal>,
    tick: u64,
    out: Result<(Seq<Resolution>, Seq<Seq<Cause>>), TickError>,
) -> bool {
    exists|keys: Seq<FactKey>, outs: Seq<Result<(Resolution, Seq<Cause>), TickError>>|
        #[trigger] target_keys(ps, keys) && #[trigger] outcomes_fit(domains, committed, ps, keys, tick, outs)
            && out == batch_of(outs)
}

/// Some enabled domain that owns a type means a first one does.
proof fn lemma_first_owner_exists(domains: Seq<&dyn Domain>, t: FactType, j: int)
    requires
        0 <= j < domains.len(),
        domains[j].owned(t),
    ensures
        exists|i: int| #[trigger] first_owner_is(domains, t, i),
    decreases j,
{
    if forall|k: int| 0 <= k < j ==> !(#[trigger] domains[k]).owned(t) {
        assert(first_owner_is(domains, t, j));
    } else {
        let k = choose|k: int| 0 <= k < j && (#[trigger] domains[k]).owned(t);
        lemma_first_owner_exists(domains, t, k);
    }
}

/// A key that resolves writes that key and keeps the causes of the proposals targeting it,
/// in emission order.
proof fn lemma_key_outcome(
    domains: Seq<&dyn Domain>,
    committed: Seq<Triple>,
    ps: Seq<Proposal>,
    key: FactKey,
    tick: u64,
    r: Resolution,
    c: Seq<Cause>,
)
    requires
        key_resolves(domains, committed, ps, key, tick, Ok((r, c))),
    ensures
        key_id(resolution_key(r)) == key_id(key),
        c == proposals_at(ps, key_id(key)).map_values(|p: Proposal| p.cause),
{
    let t = key.fact_type;
    if !(forall|j: int| 0 <= j < domains.len() ==> !(#[trigger] domains[j]).owned(t)) {
        let j = choose|j: int| 0 <= j < domains.len() && (#[trigger] domains[j]).owned(t);
        lemma_first_owner_exists(domains, t, j);
        let i = choose|i: int| #[trigger] first_owner_is(domains, t, i);
        assert(first_owner_is(domains, t, i));
    }
}

/// One chronicle entry per committed proposal: in a batch a tick resolves, each resolution
/// writes its own key, and the causes kept for it are those of every proposal that targeted
/// that key, in emission order, so [`chronicle_of`] records each committed proposal's cause.
pub proof fn law_chronicle_keeps_every_proposal(
    domains: Seq<&dyn Domain>,
    committed: Seq<Triple>,
    ps: Seq<Proposal>,
    tick: u64,
    rs: Seq<Resolution>,
    cs: Seq<Seq<Cause>>,
)
    requires
        tick_resolves(domains, committed, ps, tick, Ok((rs, cs))),
    ensures
        rs.len() == cs.len(),
        forall|q: int|
            0 <= q < rs.len() ==> #[trigger] cs[q] == proposals_at(
                ps,
                key_id(resolution_key(rs[q])),
            ).map_values(|p: Proposal| p.cause),
{
    let (keys, outs) = choose|keys: Seq<FactKey>, outs: Seq<Result<(Resolution, Seq<Cause>), TickError>>|
        #[trigger] target_keys(ps, keys) && #[trigger] outcomes_fit(domains, committed, ps, keys, tick, outs)
            && Ok::<(Seq<Resolution>, Seq<Seq<Cause>>), TickError>((rs, cs)) == batch_of(outs);
    assert(!(outs.len() > 0 && outs.last() is Err));
    assert(outs.len() == keys.len());
    assert(rs == outs.map_values(|o| outcome_resolution(o)));
    assert(cs == outs.map_values(|o| outcome_causes(o)));
    assert forall|q: int| 0 <= q < rs.len() implies #[trigger] cs[q] == proposals_at(
        ps,
        key_id(resolution_key(rs[q])),
    ).map_values(|p: Proposal| p.cause) by {
        assert(outs[q] is Ok);
        let (r, c) = outs[q]->Ok_0;
        assert(key_resolves(domains, committed, ps, keys[q], tick, outs[q]));
        lemma_key_outcome(domains, committed, ps, keys[q], tick, r, c);
        assert(rs[q] == r && cs[q] == c);
    }
}

/// A resolved batch seen as plain sequences.
pub open spec fn batch_view(r: Result<(Vec<Resolution>, Vec<Vec<Cause>>), TickError>) -> Result<
    (Seq<Resolution>, Seq<Seq<Cause>>),
    TickError,
> {
    match r {
        Ok((rs, cs)) => Ok((rs@, cs@.map_values(|c: Vec<Cause>| c@))),
        Err(e) => Err(e),
    }
}

/// Resolve a tick's proposals against committed reality: group them per target key in
/// ascending key order and resolve each key by its first owning domain (see
/// [`key_resolves`]), stopping at the first key that fails. Returns the batch to commit and,
/// per resolution, the causes of the proposals behind it.
pub fn resolve_proposals<S: RealityStore>(
    store: &S,
    domains: &[&dyn Domain],
    proposals: &[Proposal],
    tick: u64,
) -> (r: Result<(Vec<Resolution>, Vec<Vec<Cause>>), TickError>)
    ensures
        tick_resolves(domains@, store.committed(), proposals@, tick, batch_view(r)),
        r matches Ok((rs, cs)) ==> rs@.len() == cs@.len() && forall|q: int|
            0 <= q < rs@.len() ==> committed_at(#[trigger] rs@[q], cs@[q]@, tick),
        proposals.len() == 0 ==> (r matches Ok((rs, cs)) && rs@.len() == 0),
{
    let keys = collect_keys(proposals);
    proof {
        if proposals.len() == 0 && keys.len() > 0 {
            assert(keys@.contains(keys@[0]));
        }
    }
    let ghost committed = store.committed();
    let ghost mut outs: Seq<Result<(Resolution, Seq<Cause>), TickError>> = Seq::empty();
    let mut resolutions: Vec<Resolution> = Vec::new();
    let mut causes: Vec<Vec<Cause>> = Vec::new();
    let mut g: usize = 0;
    while g < keys.len()
        invariant
            g <= keys.len(),
            committed == store.committed(),
            target_keys(proposals@, keys@),
            proposals.len() == 0 ==> keys.len() == 0,
            forall|x: FactKey|
                #[trigger] keys@.contains(x) ==> exists|j: int|
                    0 <= j < proposals.len() && (#[trigger] proposals@[j]).target == x,
            resolutions@.len() == causes@.len(),
            outs.len() == g,
            resolutions@.len() == g,
            forall|k: int|
                0 <= k < g ==> key_resolves(domains@, committed, proposals@, keys@[k], tick, #[trigger] outs[k]),
            forall|k: int|
                0 <= k < g ==> #[trigger] outs[k] == Ok::<(Resolution, Seq<Cause>), TickError>(
                    (resolutions@[k], causes@[k]@),
                ),
            forall|q: int| 0 <= q < resolutions.len() ==> #[trigger] committed_at(
                resolutions@[q],
                causes@[q]@,
                tick,
            ),
        decreases keys.len() - g,
    {
        let key = keys[g];
        let props = proposals_for(proposals, key);
        proof {
            assert(keys@.contains(key));
            let j = choose|j: int|
                0 <= j < proposals.len() && (#[trigger] proposals@[j]).target == key;
            lemma_proposals_at_nonempty(proposals@, key_id(key), j);
        }
        let group_causes = causes_of(props.as_slice());
        let changes = changes_of(props.as_slice());
        let ghost t = key.fact_type;
        let owner_index = match owner_of(domains, key.fact_type) {
            Some(i) => i,
            None => {
                let ghost o = Err::<(Resolution, Seq<Cause>), TickError>(TickError::Unowned(t));
                proof {
                    assert(key_resolves(domains@, committed, proposals@, key, tick, o));
                    lemma_batch_fails(domains@, committed, proposals@, keys@, tick, outs, o);
                }
                return Err(TickError::Unowned(key.fact_type));
            },
        };
        let owner = domains[owner_index];
        let (system, cause) = attribution(props.as_slice());
        let provenance = Provenance::new(system, tick, cause);
        proof {
            assert forall|i: int| #[trigger] first_owner_is(domains@, t, i) implies i
                == owner_index by {
                if i < owner_index {
                } else if i > owner_index {
                    assert(!domains@[owner_index as int].owned(t));
                }
            }
            assert(!(forall|j: int| 0 <= j < domains@.len() ==> !(#[trigger] domains@[j]).owned(t)))
                by {
                assert(domains@[owner_index as int].owned(t));
            }
        }
        match owner.cardinality(key.fact_type) {
            Cardinality::One => {
                let current = match store.read(key) {
                    Some(f) => Some(f.value),
                    None => None,
                };
                let resolved = match owner.compose(key.fact_type, current, changes.as_slice()) {
                    Ok(v) => v,
                    Err(e) => {
                        let ghost o = Err::<(Resolution, Seq<Cause>), TickError>(TickError::Resolve(e));
                        proof {
                            assert(key_resolves(domains@, committed, proposals@, key, tick, o));
                            lemma_batch_fails(domains@, committed, proposals@, keys@, tick, outs, o);
                        }
                        return Err(TickError::Resolve(e));
                    },
                };
                match owner.validate(key.fact_type, &resolved) {
                    Ok(()) => {},
                    Err(e) => {
                        let ghost o = Err::<(Resolution, Seq<Cause>), TickError>(TickError::Validate(e));
                        proof {
                            assert(key_resolves(domains@, committed, proposals@, key, tick, o));
                            lemma_batch_fails(domains@, committed, proposals@, keys@, tick, outs, o);
                        }
                        return Err(TickError::Validate(e));
                    },
                }
                let res = resolve_one(key, resolved, provenance);
                proof {
                    let o = Ok::<(Resolution, Seq<Cause>), TickError>((res, group_causes@));
                    assert(key_resolves(domains@, committed, proposals@, key, tick, o));
                    outs = outs.push(o);
                }
                resolutions.push(res);
                causes.push(group_causes);
            },
            Cardinality::Many => {
                let committed_facts = store.read_all(key);
                let current = values_of(committed_facts.as_slice());
                match compose_set(current.as_slice(), changes.as_slice()) {
                    Ok(vals) => {
                        let facts = facts_with(vals.as_slice(), provenance);
                        let ghost fs = facts@;
                        proof {
                            assert(fs.map_values(|f: Fact| f.value) =~= vals@);
                        }
                        let res = Resolution::Many { key, facts };
                        proof {
                            let o = Ok::<(Resolution, Seq<Cause>), TickError>((res, group_causes@));
                            assert(set_resolution(fs, facts_at(committed, key_id(key)), changes@, provenance));
                            assert(key_resolves(domains@, committed, proposals@, key, tick, o));
                            outs = outs.push(o);
                        }
                        resolutions.push(res);
                        causes.push(group_causes);
                    },
                    Err(e) => {
                        let ghost o = Err::<(Resolution, Seq<Cause>), TickError>(TickError::Resolve(e));
                        proof {
                            assert(key_resolves(domains@, committed, proposals@, key, tick, o));
                            lemma_batch_fails(domains@, committed, proposals@, keys@, tick, outs, o);
                        }
                        return Err(TickError::Resolve(e));
                    },
                }
            },
        }
        g = g + 1;
    }
    proof {
        assert(outcomes_fit(domains@, committed, proposals@, keys@, tick, outs));
        assert(batch_of(outs) is Ok);
        assert(outs.map_values(|o| outcome_resolution(o)) =~= resolutions@);
        assert(outs.map_values(|o| outcome_causes(o)) =~= causes@.map_values(|c: Vec<Cause>| c@));
        assert(target_keys(proposals@, keys@));
    }
    Ok((resolutions, causes))
}

/// A key that fails after a run of successes makes the whole batch fail with its error.
proof fn lemma_batch_fails(
    domains: Seq<&dyn Domain>,
    committed: Seq<Triple>,
    ps: Seq<Proposal>,
    keys: Seq<FactKey>,
    tick: u64,
    outs: Seq<Result<(Resolution, Seq<Cause>), TickError>>,
    o: Result<(Resolution, Seq<Cause>), TickError>,
)
    requires
        target_keys(ps, keys),
        outs.len() < keys.len(),
        forall|k: int| 0 <= k < outs.len() ==> key_resolves(domains, committed, ps, keys[k], tick, #[trigger] outs[k]),
        forall|k: int| 0 <= k < outs.len() ==> (#[trigger] outs[k]) is Ok,
        key_resolves(domains, committed, ps, keys[outs.len() as int], tick, o),
        o is Err,
    ensures
        tick_resolves(domains, committed, ps, tick, match o {
            Err(e) => Err(e),
            Ok(_) => arbitrary(),
        }),
{
    let all = outs.push(o);
    assert(forall|k: int| 0 <= k < outs.len() ==> all[k] == outs[k]);
    assert(outcomes_fit(domains, committed, ps, keys, tick, all));
}

// ---- the gathered proposals -----------------------------------------------------------

/// The identities the systems declare, in order.
pub open spec fn system_ids(systems: Seq<Box<dyn System>>) -> Seq<SystemId> {
    systems.map_values(|s: Box<dyn System>| s.declared_id())
}

/// Whether `order` runs the systems due on `tick`, each once, in schedule order (by name,
/// then by position).
pub open spec fn schedules(systems: Seq<Box<dyn System>>, tick: u64, order: Seq<usize>) -> bool {
    &&& forall|k: int|
        0 <= k < order.len() ==> order[k] < systems.len() && due_on(
            systems[#[trigger] order[k] as int].declared_cadence(),
            tick,
        )
    &&& forall|j: int|
        0 <= j < systems.len() && due_on((#[trigger] systems[j]).declared_cadence(), tick)
            ==> order.contains(j as usize)
    &&& forall|a: int, b: int|
        0 <= a < b < order.len() ==> runs_before(
            system_ids(systems),
            #[trigger] order[a] as int,
            #[trigger] order[b] as int,
        )
}

/// The context a system evaluates in: the tick, the seed, and the system's numeric code.
pub open spec fn context_for(system: SystemId, tick: u64, seed: u64) -> TickContext {
    TickContext { tick, seed, system_code: fnv32(system_bytes(system)) }
}

/// The proposals system `i` makes this tick: its evaluation of committed reality restricted
/// to its declared read set, in its own context.
pub open spec fn proposals_of(
    systems: Seq<Box<dyn System>>,
    i: int,
    committed: Seq<Triple>,
    tick: u64,
    seed: u64,
) -> Seq<Proposal> {
    systems[i].evaluated(
        restrict(committed, systems[i].declared_reads()),
        context_for(systems[i].declared_id(), tick, seed),
    )
}

/// The proposals the systems in `order` make, one system after another.
pub open spec fn emitted(
    systems: Seq<Box<dyn System>>,
    committed: Seq<Triple>,
    order: Seq<usize>,
    tick: u64,
    seed: u64,
) -> Seq<Proposal>
    decreases order.len(),
{
    if order.len() == 0 {
        Seq::empty()
    } else {
        emitted(systems, committed, order.drop_last(), tick, seed) + proposals_of(
            systems,
            order.last() as int,
            committed,
            tick,
            seed,
        )
    }
}

/// Whether every proposal system `i` makes this tick targets a fact type of its declared
/// write set and declares a basis the kernel accepts.
pub open spec fn evaluation_clean(
    systems: Seq<Box<dyn System>>,
    i: int,
    committed: Seq<Triple>,
    tick: u64,
    seed: u64,
) -> bool {
    first_fault(
        systems[i].declared_id(),
        systems[i].declared_writes(),
        proposals_of(systems, i, committed, tick, seed),
        tick,
    ) is None
}

/// Whether `e` is an error system `i`'s evaluation stops the tick with: a read of a fact type
/// outside its declared read set, or the fault of its first faulty proposal.
pub open spec fn evaluation_error(
    systems: Seq<Box<dyn System>>,
    i: int,
    committed: Seq<Triple>,
    tick: u64,
    seed: u64,
    e: TickError,
) -> bool {
    ||| e matches TickError::UndeclaredRead { system, fact_type } && system == systems[i].declared_id()
        && !type_listed(systems[i].declared_reads(), fact_type)
    ||| first_fault(
        systems[i].declared_id(),
        systems[i].declared_writes(),
        proposals_of(systems, i, committed, tick, seed),
        tick,
    ) == Some(e)
}

/// Whether a tick running the systems in `order` stops with `e`: the first system whose
/// evaluation fails decides it; when every evaluation is clean, the resolution of the
/// gathered proposals does.
pub open spec fn tick_fails(
    systems: Seq<Box<dyn System>>,
    domains: Seq<&dyn Domain>,
    committed: Seq<Triple>,
    order: Seq<usize>,
    tick: u64,
    seed: u64,
    e: TickError,
) -> bool {
    ||| exists|d: int|
        0 <= d < order.len() && (forall|d2: int|
            0 <= d2 < d ==> evaluation_clean(systems, #[trigger] order[d2] as int, committed, tick, seed))
            && #[trigger] evaluation_error(systems, order[d] as int, committed, tick, seed, e)
    ||| (forall|d: int|
        0 <= d < order.len() ==> evaluation_clean(systems, #[trigger] order[d] as int, committed, tick, seed))
        && tick_resolves(domains, committed, emitted(systems, committed, order, tick, seed), tick, Err(e))
}

// ---- the tick --------------------------------------------------------------------------

/// Advance committed reality by one tick through the seven ordered stages.
///
/// On success the store holds the batch this tick resolved, and one [`ChronicleEntry`] is
/// appended per committed proposal behind a write, so every cause that moved a fact is
/// kept; removals are not chronicled. On any failure the store and the chronicle are left
/// untouched and the returned [`TickError`] names where it stopped. A tick on which no
/// system is due always succeeds and changes nothing.
///
/// What commits is determined by the systems and domains: the due systems, run in schedule
/// order, each propose [`System::evaluated`] over committed reality restricted to their
/// declared read sets ([`emitted`]), and those proposals resolve by [`tick_resolves`]; a
/// resolution failure is the tick's error.
///
/// `systems` are the systems to run (typically gathered from `domains`); `domains` supply
/// ownership, cardinality, composition and validation for each touched fact type.
pub fn run_tick<S: RealityStore>(
    store: &mut S,
    domains: &[&dyn Domain],
    systems: &[Box<dyn System>],
    tick: u64,
    seed: u64,
    chronicle: &mut Vec<ChronicleEntry>,
) -> (r: Result<(), TickError>)
    ensures
        r is Err ==> final(store).committed() == old(store).committed() && final(chronicle)@
            == old(chronicle)@,
        r is Ok ==> exists|rs: Seq<Resolution>, cs: Seq<Seq<Cause>>|
            final(chronicle)@ == old(chronicle)@ + #[trigger] chronicle_of(tick, rs, cs) && applied(
                old(store).committed(),
                rs,
            ) == final(store).committed() && rs.len() == cs.len() && forall|q: int|
                0 <= q < rs.len() ==> committed_at(#[trigger] rs[q], cs[q], tick),
        r is Ok ==> exists|order: Seq<usize>, rs: Seq<Resolution>, cs: Seq<Seq<Cause>>|
            schedules(systems@, tick, order) && (forall|d: int|
                0 <= d < order.len() ==> evaluation_clean(
                    systems@,
                    #[trigger] order[d] as int,
                    old(store).committed(),
                    tick,
                    seed,
                )) && #[trigger] tick_resolves(
                domains@,
                old(store).committed(),
                emitted(systems@, old(store).committed(), order, tick, seed),
                tick,
                Ok((rs, cs)),
            ) && final(chronicle)@ == old(chronicle)@ + chronicle_of(tick, rs, cs)
                && final(store).committed() == applied(old(store).committed(), rs),
        r matches Err(e) ==> exists|order: Seq<usize>|
            schedules(systems@, tick, order) && #[trigger] tick_fails(
                systems@,
                domains@,
                old(store).committed(),
                order,
                tick,
                seed,
                e,
            ),
        (forall|q: int|
            0 <= q < systems.len() ==> !due_on((#[trigger] systems@[q]).declared_cadence(), tick))
            ==> r is Ok && final(store).committed() == old(store).committed() && final(chronicle)@
            == old(chronicle)@,
{
    // 1. SCHEDULE: due systems in a deterministic order (by name). Under hermetic evaluation
    //    execution order does not change committed reality, so a stable name sort is a
    //    valid order.
    let mut ids: Vec<SystemId> = Vec::new();
    let mut cadences: Vec<Cadence> = Vec::new();
    let mut k: usize = 0;
    while k < systems.len()
        invariant
            k <= systems.len(),
            ids.len() == k,
            cadences.len() == k,
            forall|q: int|
                0 <= q < k ==> cadences@[q] == (#[trigger] systems@[q]).declared_cadence(),
            forall|q: int| 0 <= q < k ==> ids@[q] == (#[trigger] systems@[q]).declared_id(),
        decreases systems.len() - k,
    {
        ids.push(systems[k].id());
        cadences.push(systems[k].cadence());
        k = k + 1;
    }
    let due = schedule(ids.as_slice(), cadences.as_slice(), tick);
    let ghost committed = store.committed();
    proof {
        assert(ids@ =~= system_ids(systems@));
        assert(schedules(systems@, tick, due@));
    }
    let ghost idle = forall|q: int|
        0 <= q < systems.len() ==> !due_on((#[trigger] systems@[q]).declared_cadence(), tick);
    proof {
        if idle && due.len() > 0 {
            assert(due_on(cadences@[due@[0] as int], tick));
            assert(due_on(systems@[due@[0] as int].declared_cadence(), tick));
        }
    }

    // 2. EVALUATE: each system reads a view scoped to its declared read set, and may only
    //    propose to facts in its declared write set, against the committed basis.
    let mut proposals: Vec<Proposal> = Vec::new();
    let mut d: usize = 0;
    while d < due.len()
        invariant
            d <= due.len(),
            ids.len() == systems.len(),
            forall|q: int| 0 <= q < due.len() ==> due@[q] < systems.len(),
            due.len() == 0 ==> proposals.len() == 0,
            idle ==> due.len() == 0,
            committed == store.committed(),
            committed == old(store).committed(),
            schedules(systems@, tick, due@),
            ids@ == system_ids(systems@),
            proposals@ == emitted(systems@, committed, due@.take(d as int), tick, seed),
            forall|d2: int|
                0 <= d2 < d ==> evaluation_clean(systems@, #[trigger] due@[d2] as int, committed, tick, seed),
            idle == forall|q: int|
                0 <= q < systems.len() ==> !due_on((#[trigger] systems@[q]).declared_cadence(), tick),
        decreases due.len() - d,
    {
        let s = due[d];
        let id = ids[s];
        let reads = systems[s].reads();
        let writes = systems[s].writes();
        let scoped = ScopedView::new(&*store, reads.as_slice());
        let ctx = TickContext::new(tick, seed, id.code());
        let emitted = systems[s].evaluate(&scoped, &ctx);
        let ghost before = proposals@;
        proof {
            let sys = systems@[s as int];
            assert(due@.take(d + 1).drop_last() =~= due@.take(d as int));
            assert(due@.take(d + 1).last() == s);
            assert(ctx == context_for(sys.declared_id(), tick, seed));
            assert(emitted@ == sys.evaluated(restrict(committed, sys.declared_reads()), ctx));
            assert(emitted@ == proposals_of(systems@, s as int, committed, tick, seed));
        }
        let undeclared = scoped.undeclared_read();
        match check_evaluation(id, writes.as_slice(), emitted.as_slice(), tick, undeclared) {
            Ok(()) => {},
            Err(e) => {
                proof {
                    assert(evaluation_error(systems@, s as int, committed, tick, seed, e));
                    assert(tick_fails(systems@, domains@, committed, due@, tick, seed, e));
                }
                return Err(e);
            },
        }
        proof {
            assert(evaluation_clean(systems@, due@[d as int] as int, committed, tick, seed));
        }
        let mut e: usize = 0;
        while e < emitted.len()
            invariant
                e <= emitted.len(),
                proposals@ == before + emitted@.take(e as int),
            decreases emitted.len() - e,
        {
            proposals.push(emitted[e]);
            assert(emitted@.take(e + 1) =~= emitted@.take(e as int).push(emitted@[e as int]));
            e = e + 1;
        }
        assert(emitted@.take(e as int) =~= emitted@);
        d = d + 1;
    }

    // 3-4. RESOLVE + VALIDATE: group proposals per fact in key order, then resolve each by
    //      its owner's cardinality and rules.
    let ghost ps = proposals@;
    proof {
        assert(due@.take(d as int) =~= due@);
    }
    let (resolutions, causes) = match resolve_proposals(&*store, domains, proposals.as_slice(), tick) {
        Ok(batch) => batch,
        Err(e) => {
            proof {
                assert(tick_resolves(domains@, store.committed(), ps, tick, Err(e)));
                assert(tick_fails(systems@, domains@, committed, due@, tick, seed, e));
            }
            return Err(e);
        },
    };

    // 5. COMMIT: the single mutation path. Nothing above mutated the store, so any error
    //    before here left it untouched.
    let entries = chronicle_entries(tick, resolutions.as_slice(), &causes);
    let ghost rs = resolutions@;
    let ghost cs = causes@.map_values(|c: Vec<Cause>| c@);
    store.apply(CommitBatch { tick, resolutions });

    // 6. CHRONICLE: one entry per committed proposal behind a write, from its cause.
    let ghost start = chronicle@;
    let mut c: usize = 0;
    while c < entries.len()
        invariant
            c <= entries.len(),
            chronicle@ == start + entries@.take(c as int),
        decreases entries.len() - c,
    {
        chronicle.push(entries[c]);
        assert(entries@.take(c + 1) =~= entries@.take(c as int).push(entries@[c as int]));
        assert(start + entries@.take(c + 1) =~= (start + entries@.take(c as int)).push(
            entries@[c as int],
        ));
        c = c + 1;
    }
    assert(entries@.take(c as int) =~= entries@);

    // 7. OBSERVE: a read-only notification hook; nothing on the critical path.
    assert(applied(old(store).committed(), rs) == store.committed());
    assert(chronicle@ == start + chronicle_of(tick, rs, cs));
    assert(forall|q: int| 0 <= q < rs.len() ==> committed_at(#[trigger] rs[q], cs[q], tick));
    assert(tick_resolves(domains@, old(store).committed(), ps, tick, Ok((rs, cs))));
    assert(schedules(systems@, tick, due@));
    assert(ps == emitted(systems@, old(store).committed(), due@, tick, seed));
    Ok(())
}

/// Every fact a resolution writes carries the tick that committed it.
pub open spec fn resolution_tick(r: Resolution, tick: u64) -> bool {
    match r {
        Resolution::One { fact, .. } => fact.provenance.tick == tick,
        Resolution::Many { facts, .. } => forall|i: int|
            0 <= i < facts@.len() ==> (#[trigger] facts@[i]).provenance.tick == tick,
        Resolution::Clear { .. } => true,
    }
}

} // verus!
