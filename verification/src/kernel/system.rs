//! Systems and their hermetic evaluation context.
//!
//! A system reads a committed-state view scoped to its declared read set, draws from a random
//! substream the kernel issues, sees the clock, and returns proposals; it touches nothing
//! else. That seal is what makes each system testable in isolation.

use crate::kernel::fact::{contains_type, key_id, type_bytes, type_listed, Fact, FactKey, FactType, SystemId};
use crate::kernel::identity::EntityId;
use crate::kernel::proposal::Proposal;
use crate::kernel::rng::{substream_state, Rng, SubstreamKey};
use crate::kernel::triples::{entities_of_type, facts_at, first_at, Triple};
use vstd::cell::invcell::InvCell;
use vstd::prelude::*;

verus! {

/// A list of fact types, such as a declared read set.
pub type FactTypeList = Seq<FactType>;

/// A listing of committed triples.
pub type TripleList = Seq<Triple>;

/// A list of proposals, in emission order.
pub type ProposalList = Seq<Proposal>;

/// How often a system runs, in simulation time.
#[derive(Clone, Copy, PartialEq, Eq, Debug)]
pub enum Cadence {
    /// Runs on every tick.
    EveryTick,
    /// Runs every `n` ticks (a zero period never runs).
    EveryNTicks(u64),
}

/// Whether a system with cadence `c` is due on `tick`.
pub open spec fn due_on(c: Cadence, tick: u64) -> bool {
    match c {
        Cadence::EveryTick => true,
        Cadence::EveryNTicks(n) => n != 0 && tick % n == 0,
    }
}

impl Cadence {
    /// Whether a system with this cadence is due on `tick` (tick 0 is the initial world).
    pub fn is_due(&self, tick: u64) -> (r: bool)
        ensures
            r == due_on(*self, tick),
    {
        match self {
            Cadence::EveryTick => true,
            Cadence::EveryNTicks(n) => *n != 0 && tick % *n == 0,
        }
    }
}

/// A read-only view of committed reality handed to a system for one evaluation. It never
/// exposes in-flight proposals.
pub trait CommittedView {
    /// The committed triples this view reveals, in canonical order.
    spec fn committed(&self) -> Seq<Triple>;

    /// Read one committed value at `key`, or `None` if absent. For a cardinality-many fact
    /// this is the least value; use [`CommittedView::read_all`] for the whole set.
    fn read(&self, key: FactKey) -> (r: Option<Fact>)
        ensures
            r == first_at(self.committed(), key_id(key)),
    ;

    /// Read every committed value at `key`, in deterministic order.
    fn read_all(&self, key: FactKey) -> (r: Vec<Fact>)
        ensures
            r@ == facts_at(self.committed(), key_id(key)),
    ;

    /// Every entity bearing a committed fact of `fact_type`, ascending, each once.
    fn entities_with(&self, fact_type: FactType) -> (r: Vec<EntityId>)
        ensures
            r@ == entities_of_type(self.committed(), type_bytes(fact_type)),
    ;
}

/// The triples of `s` whose fact type is listed in `allowed`.
pub open spec fn restrict(s: Seq<Triple>, allowed: Seq<FactType>) -> Seq<Triple>
    decreases s.len(),
{
    if s.len() == 0 {
        s
    } else {
        let r = restrict(s.drop_last(), allowed);
        if type_listed(allowed, s.last().key.fact_type) {
            r.push(s.last())
        } else {
            r
        }
    }
}

/// Restricting a listing to a read set hides exactly the undeclared fact types.
pub proof fn lemma_restrict_reads(s: Seq<Triple>, allowed: Seq<FactType>, k: FactKey)
    ensures
        facts_at(restrict(s, allowed), key_id(k)) == (if type_listed(allowed, k.fact_type) {
            facts_at(s, key_id(k))
        } else {
            Seq::<Fact>::empty()
        }),
    decreases s.len(),
{
    if s.len() > 0 {
        lemma_restrict_reads(s.drop_last(), allowed, k);
        let r = restrict(s.drop_last(), allowed);
        assert(r.push(s.last()).drop_last() =~= r);
        if key_id(s.last().key) == key_id(k) {
            lemma_listed_by_bytes(allowed, s.last().key.fact_type, k.fact_type);
        }
    }
}

/// Restricting a listing to a read set hides exactly the undeclared fact types.
pub proof fn lemma_restrict_entities(s: Seq<Triple>, allowed: Seq<FactType>, t: FactType)
    ensures
        entities_of_type(restrict(s, allowed), type_bytes(t)) == (if type_listed(allowed, t) {
            entities_of_type(s, type_bytes(t))
        } else {
            Seq::<EntityId>::empty()
        }),
    decreases s.len(),
{
    if s.len() > 0 {
        lemma_restrict_entities(s.drop_last(), allowed, t);
        let r = restrict(s.drop_last(), allowed);
        assert(r.push(s.last()).drop_last() =~= r);
        if type_bytes(s.last().key.fact_type) == type_bytes(t) {
            lemma_listed_by_bytes(allowed, s.last().key.fact_type, t);
        }
    }
}

/// Whether a type is listed depends only on its name bytes.
proof fn lemma_listed_by_bytes(allowed: Seq<FactType>, a: FactType, b: FactType)
    requires
        type_bytes(a) == type_bytes(b),
    ensures
        type_listed(allowed, a) == type_listed(allowed, b),
{
}

/// What a scoped view may remember as an undeclared read: only a fact type outside its
/// read set.
pub struct UndeclaredPeek {
    /// The read set of the view that remembers.
    pub allowed: Ghost<Seq<FactType>>,
}

impl vstd::predicate::Predicate<Option<FactType>> for UndeclaredPeek {
    open spec fn predicate(&self, v: Option<FactType>) -> bool {
        match v {
            Some(t) => !type_listed(self.allowed@, t),
            None => true,
        }
    }
}

/// A committed view scoped to a system's declared read set: it reveals only the fact types
/// the system declared it reads, and remembers the first undeclared fact type a read reached
/// for, so the tick can refuse a system that depended on a fact it never declared.
pub struct ScopedView<'a, V: CommittedView + ?Sized> {
    inner: &'a V,
    allowed: Vec<FactType>,
    peeked: InvCell<Option<FactType>, UndeclaredPeek>,
}

impl<'a, V: CommittedView + ?Sized> ScopedView<'a, V> {
    /// The memory of undeclared reads only ever holds a type outside the read set.
    #[verifier::type_invariant]
    spec fn remembers_only_undeclared(&self) -> bool {
        self.peeked.predicate().allowed@ == self.allowed@
    }

    /// The fact types this view reveals, in the order they were declared.
    pub closed spec fn read_set(&self) -> Seq<FactType> {
        self.allowed@
    }

    /// Scope `inner` to the `allowed` read set.
    pub fn new(inner: &'a V, allowed: &[FactType]) -> (v: ScopedView<'a, V>)
        ensures
            v.read_set() == allowed@,
            v.committed() == restrict(inner.committed(), allowed@),
    {
        let mut list: Vec<FactType> = Vec::new();
        let mut i: usize = 0;
        while i < allowed.len()
            invariant
                i <= allowed.len(),
                list@ == allowed@.take(i as int),
            decreases allowed.len() - i,
        {
            list.push(allowed[i]);
            i = i + 1;
        }
        assert(list@ == allowed@);
        let ghost declared = list@;
        ScopedView {
            inner,
            allowed: list,
            peeked: InvCell::new(None, Ghost(UndeclaredPeek { allowed: Ghost(declared) })),
        }
    }

    /// The first fact type a read reached for outside the declared read set, if any. A type
    /// it reports is never one the view was scoped to.
    pub fn undeclared_read(&self) -> (r: Option<FactType>)
        ensures
            r matches Some(t) ==> !type_listed(self.read_set(), t),
    {
        proof {
            use_type_invariant(self);
        }
        self.peeked.get()
    }

    /// Remember an undeclared read (only the first one is kept).
    fn note_undeclared(&self, t: FactType)
        requires
            !type_listed(self.read_set(), t),
    {
        proof {
            use_type_invariant(self);
        }
        if self.peeked.get().is_none() {
            self.peeked.set(Some(t));
        }
    }
}

impl<'a, V: CommittedView + ?Sized> CommittedView for ScopedView<'a, V> {
    closed spec fn committed(&self) -> Seq<Triple> {
        restrict(self.inner.committed(), self.allowed@)
    }

    fn read(&self, key: FactKey) -> (r: Option<Fact>) {
        proof {
            lemma_restrict_reads(self.inner.committed(), self.allowed@, key);
        }
        if contains_type(self.allowed.as_slice(), &key.fact_type) {
            self.inner.read(key)
        } else {
            self.note_undeclared(key.fact_type);
            None
        }
    }

    fn read_all(&self, key: FactKey) -> (r: Vec<Fact>) {
        proof {
            lemma_restrict_reads(self.inner.committed(), self.allowed@, key);
        }
        if contains_type(self.allowed.as_slice(), &key.fact_type) {
            self.inner.read_all(key)
        } else {
            self.note_undeclared(key.fact_type);
            Vec::new()
        }
    }

    fn entities_with(&self, fact_type: FactType) -> (r: Vec<EntityId>) {
        proof {
            lemma_restrict_entities(self.inner.committed(), self.allowed@, fact_type);
        }
        if contains_type(self.allowed.as_slice(), &fact_type) {
            self.inner.entities_with(fact_type)
        } else {
            self.note_undeclared(fact_type);
            Vec::new()
        }
    }
}

/// The per-evaluation context: the clock and the system's issued random substream.
#[derive(Clone, Copy, Debug)]
pub struct TickContext {
    /// The tick being computed.
    pub tick: u64,
    /// The world seed.
    pub seed: u64,
    /// The evaluating system's numeric code.
    pub system_code: u32,
}

/// The committed tick a proposal computed at `tick` must have read: the one before it.
pub open spec fn basis_of(tick: u64) -> u64 {
    if tick == 0 {
        0
    } else {
        (tick - 1) as u64
    }
}

impl TickContext {
    /// Create a context for a system (identified by `system_code`) at `tick` under `seed`.
    pub fn new(tick: u64, seed: u64, system_code: u32) -> (c: TickContext)
        ensures
            c == (TickContext { tick, seed, system_code }),
    {
        TickContext { tick, seed, system_code }
    }

    /// The current tick.
    pub fn tick(&self) -> (r: u64)
        ensures
            r == self.tick,
    {
        self.tick
    }

    /// The committed tick this evaluation reads: the one before the tick being computed.
    pub fn basis_tick(&self) -> (r: u64)
        ensures
            r == basis_of(self.tick),
    {
        if self.tick == 0 {
            0
        } else {
            self.tick - 1
        }
    }

    /// Issue this system's deterministic random substream for `scope`.
    pub fn rng(&self, scope: u64) -> (r: Rng)
        ensures
            r.state == substream_state(
                self.seed,
                SubstreamKey { system: self.system_code, tick: self.tick, scope },
            ),
    {
        Rng::for_substream(self.seed, SubstreamKey::new(self.system_code, self.tick, scope))
    }
}

/// A hermetic transformation of committed reality into proposals.
pub trait System {
    /// The identity this system declares.
    spec fn declared_id(&self) -> SystemId;

    /// The system's stable identity.
    fn id(&self) -> (r: SystemId)
        ensures
            r == self.declared_id(),
    ;

    /// The read set this system declares.
    spec fn declared_reads(&self) -> FactTypeList;

    /// The fact types this system may read: its declared read set.
    fn reads(&self) -> (r: Vec<FactType>)
        ensures
            r@ == self.declared_reads(),
    ;

    /// The write set this system declares.
    spec fn declared_writes(&self) -> FactTypeList;

    /// The fact types this system may write: its declared write set.
    fn writes(&self) -> (r: Vec<FactType>)
        ensures
            r@ == self.declared_writes(),
    ;

    /// The cadence this system declares.
    spec fn declared_cadence(&self) -> Cadence;

    /// How often the system runs.
    fn cadence(&self) -> (c: Cadence)
        ensures
            c == self.declared_cadence(),
    ;

    /// The proposals this system makes from a committed listing under a context: a function
    /// of those alone, which is what evaluating hermetically means.
    spec fn evaluated(&self, committed: TripleList, ctx: TickContext) -> ProposalList;

    /// Evaluate hermetically: read committed state via `view`, draw from `ctx`'s stream, and
    /// return proposals.
    fn evaluate(&self, view: &dyn CommittedView, ctx: &TickContext) -> (r: Vec<Proposal>)
        ensures
            r@ == self.evaluated(view.committed(), *ctx),
    ;
}

} // verus!
