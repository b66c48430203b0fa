//! Generic graph queries over the fact store: walking parent-link hierarchies.
//!
//! These are content-free: a caller passes the fact type that encodes a parent link (an
//! entity-reference fact such as containment) and gets ancestry and lowest-common-ancestor
//! over whatever hierarchy that link defines. Any domain can use them through a published
//! fact-type id, without the kernel knowing what the hierarchy means.

use crate::kernel::fact::{key_id, type_bytes, FactKey, FactType};
use crate::kernel::identity::EntityId;
use crate::kernel::system::CommittedView;
use crate::kernel::triples::{first_at, Triple};
use crate::kernel::value::Value;
use vstd::prelude::*;

verus! {

/// The parent of `e` under `link` in a listing: the entity its (first) `link` value
/// references, if that value is an entity reference.
pub open spec fn parent_of(s: Seq<Triple>, e: EntityId, link: FactType) -> Option<EntityId> {
    match first_at(s, (e.0, type_bytes(link))) {
        Some(f) => match f.value {
            Value::Entity(p) => Some(p),
            _ => None,
        },
        None => None,
    }
}

/// Whether the entities of `path` are pairwise distinct.
pub open spec fn all_distinct(path: Seq<EntityId>) -> bool {
    forall|i: int, j: int| 0 <= i < j < path.len() ==> #[trigger] path[i] != #[trigger] path[j]
}

/// Whether `path` is the ancestry of `e` under `link`: it starts at `e`, each next entry is
/// the parent of the one before, no entity repeats, and the walk ends at a root (no parent)
/// or where the next parent would repeat an entity already walked (a malformed cycle).
pub open spec fn is_ancestry(s: Seq<Triple>, e: EntityId, link: FactType, path: Seq<EntityId>) -> bool {
    &&& path.len() >= 1
    &&& path[0] == e
    &&& forall|i: int|
        0 <= i < path.len() - 1 ==> parent_of(s, #[trigger] path[i], link) == Some(path[i + 1])
    &&& all_distinct(path)
    &&& match parent_of(s, path.last(), link) {
        Some(p) => path.contains(p),
        None => true,
    }
}

/// The ancestry of `e` under `link`: the one path that [`is_ancestry`] describes.
pub open spec fn ancestry_path(s: Seq<Triple>, e: EntityId, link: FactType) -> Seq<EntityId> {
    choose|p: Seq<EntityId>| is_ancestry(s, e, link, p)
}

/// An entity has at most one ancestry: the walk is determined by the committed parents.
pub proof fn lemma_ancestry_unique(
    s: Seq<Triple>,
    e: EntityId,
    link: FactType,
    p: Seq<EntityId>,
    q: Seq<EntityId>,
)
    requires
        is_ancestry(s, e, link, p),
        is_ancestry(s, e, link, q),
    ensures
        p == q,
{
    lemma_ancestry_agree(s, e, link, p, q);
    lemma_ancestry_agree(s, e, link, q, p);
    lemma_ancestry_no_shorter(s, e, link, p, q);
    lemma_ancestry_no_shorter(s, e, link, q, p);
    assert(p =~= q);
}

/// Two ancestries of one entity agree wherever both are defined.
proof fn lemma_ancestry_agree(
    s: Seq<Triple>,
    e: EntityId,
    link: FactType,
    p: Seq<EntityId>,
    q: Seq<EntityId>,
)
    requires
        is_ancestry(s, e, link, p),
        is_ancestry(s, e, link, q),
    ensures
        forall|i: int| 0 <= i < p.len() && i < q.len() ==> p[i] == q[i],
{
    assert forall|i: int| 0 <= i < p.len() && i < q.len() implies p[i] == q[i] by {
        lemma_ancestry_agree_at(s, e, link, p, q, i);
    }
}

proof fn lemma_ancestry_agree_at(
    s: Seq<Triple>,
    e: EntityId,
    link: FactType,
    p: Seq<EntityId>,
    q: Seq<EntityId>,
    i: int,
)
    requires
        is_ancestry(s, e, link, p),
        is_ancestry(s, e, link, q),
        0 <= i < p.len(),
        i < q.len(),
    ensures
        p[i] == q[i],
    decreases i,
{
    if i > 0 {
        lemma_ancestry_agree_at(s, e, link, p, q, i - 1);
        assert(parent_of(s, p[i - 1], link) == Some(p[i]));
        assert(parent_of(s, q[i - 1], link) == Some(q[i]));
    }
}

/// An ancestry cannot stop while another ancestry of the same entity goes on.
proof fn lemma_ancestry_no_shorter(
    s: Seq<Triple>,
    e: EntityId,
    link: FactType,
    p: Seq<EntityId>,
    q: Seq<EntityId>,
)
    requires
        is_ancestry(s, e, link, p),
        is_ancestry(s, e, link, q),
    ensures
        p.len() >= q.len(),
{
    if p.len() < q.len() {
        lemma_ancestry_agree(s, e, link, p, q);
        let n = p.len() - 1;
        assert(p.last() == p[n]);
        assert(parent_of(s, q[n], link) == Some(q[n + 1]));
        assert(p.contains(q[n + 1]));
        let m = choose|m: int| 0 <= m < p.len() && p[m] == q[n + 1];
        assert(q[m] == q[n + 1]);
    }
}

/// Whether `e` occurs in `path`.
fn contains_entity(path: &Vec<EntityId>, e: EntityId) -> (r: bool)
    ensures
        r == path@.contains(e),
{
    let mut i: usize = 0;
    while i < path.len()
        invariant
            i <= path.len(),
            forall|j: int| 0 <= j < i ==> path@[j] != e,
        decreases path.len() - i,
    {
        if path[i].0 == e.0 {
            return true;
        }
        i = i + 1;
    }
    false
}

/// The parent of `here` under `link`, read from `view`.
fn read_parent<V: CommittedView + ?Sized>(view: &V, here: EntityId, link: FactType) -> (r: Option<EntityId>)
    ensures
        r == parent_of(view.committed(), here, link),
{
    match view.read(FactKey::new(here, link)) {
        Some(f) => match f.value {
            Value::Entity(p) => Some(p),
            _ => None,
        },
        None => None,
    }
}

/// The chain of entities from `entity` up to its root, following `link` (each entity's parent
/// is the entity its `link` fact references). Index 0 is `entity` itself; the last is the
/// root, an entity with no `link` fact. A malformed cycle is broken at the first repeat, so
/// the result is always finite.
pub fn ancestry<V: CommittedView + ?Sized>(view: &V, entity: EntityId, link: FactType) -> (path: Vec<EntityId>)
    ensures
        is_ancestry(view.committed(), entity, link, path@),
        path@ == ancestry_path(view.committed(), entity, link),
{
    let ghost s = view.committed();
    let mut path: Vec<EntityId> = Vec::new();
    path.push(entity);
    let mut here = entity;
    loop
        invariant_except_break
            s == view.committed(),
            path.len() >= 1,
            path@[0] == entity,
            here == path@.last(),
            forall|i: int|
                0 <= i < path.len() - 1 ==> parent_of(s, #[trigger] path@[i], link) == Some(
                    path@[i + 1],
                ),
            all_distinct(path@),
        ensures
            is_ancestry(s, entity, link, path@),
        decreases usize::MAX - path.len(),
    {
        let parent = match read_parent(view, here, link) {
            Some(p) => p,
            None => {
                break;
            },
        };
        if contains_entity(&path, parent) {
            break;
        }
        let ghost before = path@;
        path.push(parent);
        proof {
            assert forall|i: int| 0 <= i < path.len() - 1 implies parent_of(
                s,
                #[trigger] path@[i],
                link,
            ) == Some(path@[i + 1]) by {
                if i < before.len() - 1 {
                    assert(path@[i] == before[i] && path@[i + 1] == before[i + 1]);
                } else {
                    assert(path@[i] == before.last());
                }
            }
            assert forall|i: int, j: int| 0 <= i < j < path.len() implies #[trigger] path@[i]
                != #[trigger] path@[j] by {
                if j == before.len() {
                    assert(path@[i] == before[i]);
                    assert(before.contains(before[i]));
                } else {
                    assert(path@[i] == before[i] && path@[j] == before[j]);
                }
            }
        }
        here = parent;
    }
    proof {
        lemma_ancestry_unique(s, entity, link, path@, ancestry_path(s, entity, link));
    }
    path
}

/// The first entity of `pa` that also occurs in `pb`, if any.
pub open spec fn first_shared(pa: Seq<EntityId>, pb: Seq<EntityId>) -> Option<EntityId>
    decreases pa.len(),
{
    if pa.len() == 0 {
        None
    } else if pb.contains(pa[0]) {
        Some(pa[0])
    } else {
        first_shared(pa.drop_first(), pb)
    }
}

/// The deepest entity that is an ancestor of both `a` and `b` under `link` (each entity is
/// its own ancestor). `None` if they share no ancestor, e.g. they sit in different,
/// unconnected hierarchies.
pub fn lowest_common_ancestor<V: CommittedView + ?Sized>(view: &V, a: EntityId, b: EntityId, link: FactType) -> (r:
    Option<EntityId>)
    ensures
        r == first_shared(
            ancestry_path(view.committed(), a, link),
            ancestry_path(view.committed(), b, link),
        ),
{
    let ancestors_of_b = ancestry(view, b, link);
    let ancestors_of_a = ancestry(view, a, link);
    let mut i: usize = 0;
    assert(ancestors_of_a@.skip(0) =~= ancestors_of_a@);
    while i < ancestors_of_a.len()
        invariant
            i <= ancestors_of_a.len(),
            ancestors_of_a@ == ancestry_path(view.committed(), a, link),
            ancestors_of_b@ == ancestry_path(view.committed(), b, link),
            first_shared(ancestors_of_a@, ancestors_of_b@) == first_shared(
                ancestors_of_a@.skip(i as int),
                ancestors_of_b@,
            ),
        decreases ancestors_of_a.len() - i,
    {
        let e = ancestors_of_a[i];
        assert(ancestors_of_a@.skip(i as int)[0] == e);
        assert(ancestors_of_a@.skip(i as int).drop_first() =~= ancestors_of_a@.skip(i + 1));
        if contains_entity(&ancestors_of_b, e) {
            assert(first_shared(ancestors_of_a@, ancestors_of_b@) == Some(e));
            return Some(e);
        }
        i = i + 1;
    }
    assert(first_shared(ancestors_of_a@.skip(i as int), ancestors_of_b@) is None);
    None
}

/// Whether the walk up from `e` under `link` ends at a root, an entity with no parent,
/// rather than running into a malformed cycle.
pub open spec fn rooted(s: Seq<Triple>, e: EntityId, link: FactType) -> bool {
    exists|p: Seq<EntityId>| is_ancestry(s, e, link, p) && parent_of(s, p.last(), link) is None
}

/// A rooted entity's ancestry is its walk to the root.
pub proof fn lemma_rooted_path(s: Seq<Triple>, e: EntityId, link: FactType)
    requires
        rooted(s, e, link),
    ensures
        is_ancestry(s, e, link, ancestry_path(s, e, link)),
        parent_of(s, ancestry_path(s, e, link).last(), link) is None,
{
    let p = choose|p: Seq<EntityId>| is_ancestry(s, e, link, p) && parent_of(s, p.last(), link) is None;
    lemma_ancestry_unique(s, e, link, p, ancestry_path(s, e, link));
}

/// Along a walk that ends at a root, the walk from any entity on it is the rest of it.
pub proof fn lemma_ancestry_suffix(s: Seq<Triple>, e: EntityId, link: FactType, p: Seq<EntityId>, i: int)
    requires
        is_ancestry(s, e, link, p),
        parent_of(s, p.last(), link) is None,
        0 <= i < p.len(),
    ensures
        is_ancestry(s, p[i], link, p.skip(i)),
{
    let q = p.skip(i);
    assert(q.last() == p.last());
    assert forall|k: int| 0 <= k < q.len() - 1 implies parent_of(s, #[trigger] q[k], link) == Some(
        q[k + 1],
    ) by {
        assert(q[k] == p[i + k] && q[k + 1] == p[i + k + 1]);
    }
    assert forall|a: int, b: int| 0 <= a < b < q.len() implies #[trigger] q[a] != #[trigger] q[b] by {
        assert(q[a] == p[i + a] && q[b] == p[i + b]);
    }
}

/// `first_shared` gives the earliest entry of `pa` that `pb` holds.
proof fn lemma_first_shared_spec(pa: Seq<EntityId>, pb: Seq<EntityId>)
    ensures
        match first_shared(pa, pb) {
            Some(x) => exists|i: int|
                0 <= i < pa.len() && pa[i] == x && pb.contains(x) && forall|k: int|
                    0 <= k < i ==> !pb.contains(#[trigger] pa[k]),
            None => forall|k: int| 0 <= k < pa.len() ==> !pb.contains(#[trigger] pa[k]),
        },
    decreases pa.len(),
{
    if pa.len() > 0 && !pb.contains(pa[0]) {
        let rest = pa.drop_first();
        lemma_first_shared_spec(rest, pb);
        match first_shared(rest, pb) {
            Some(x) => {
                let i = choose|i: int|
                    0 <= i < rest.len() && rest[i] == x && pb.contains(x) && forall|k: int|
                        0 <= k < i ==> !pb.contains(#[trigger] rest[k]);
                assert(pa[i + 1] == x);
                assert forall|k: int| 0 <= k < i + 1 implies !pb.contains(#[trigger] pa[k]) by {
                    if k > 0 {
                        assert(pa[k] == rest[k - 1]);
                    }
                }
            },
            None => {
                assert forall|k: int| 0 <= k < pa.len() implies !pb.contains(#[trigger] pa[k]) by {
                    if k > 0 {
                        assert(pa[k] == rest[k - 1]);
                    }
                }
            },
        }
    } else if pa.len() > 0 {
        assert(pa[0] == pa[0]);
    }
}

/// The lowest common ancestor is symmetric: the deepest container shared by `a` and `b` is
/// the one shared by `b` and `a`, for entities whose containment walks end at a root.
pub proof fn law_lowest_common_ancestor_symmetric(s: Seq<Triple>, a: EntityId, b: EntityId, link: FactType)
    requires
        rooted(s, a, link),
        rooted(s, b, link),
    ensures
        first_shared(ancestry_path(s, a, link), ancestry_path(s, b, link)) == first_shared(
            ancestry_path(s, b, link),
            ancestry_path(s, a, link),
        ),
{
    let pa = ancestry_path(s, a, link);
    let pb = ancestry_path(s, b, link);
    lemma_rooted_path(s, a, link);
    lemma_rooted_path(s, b, link);
    lemma_first_shared_spec(pa, pb);
    lemma_first_shared_spec(pb, pa);
    match first_shared(pa, pb) {
        None => {
            if let Some(y) = first_shared(pb, pa) {
                let j = choose|j: int|
                    0 <= j < pb.len() && pb[j] == y && pa.contains(y) && forall|k: int|
                        0 <= k < j ==> !pa.contains(#[trigger] pb[k]);
                let k = choose|k: int| 0 <= k < pa.len() && pa[k] == y;
                assert(pb.contains(pa[k]));
            }
        },
        Some(l) => {
            let i = choose|i: int|
                0 <= i < pa.len() && pa[i] == l && pb.contains(l) && forall|k: int|
                    0 <= k < i ==> !pb.contains(#[trigger] pa[k]);
            let jl = choose|jl: int| 0 <= jl < pb.len() && pb[jl] == l;
            assert(pa.contains(pb[jl]));
            let m = first_shared(pb, pa)->Some_0;
            let j = choose|j: int|
                0 <= j < pb.len() && pb[j] == m && pa.contains(m) && forall|k: int|
                    0 <= k < j ==> !pa.contains(#[trigger] pb[k]);
            let im = choose|im: int| 0 <= im < pa.len() && pa[im] == m;
            assert(pb.contains(pa[im]));
            assert(j <= jl);
            assert(i <= im);
            lemma_ancestry_suffix(s, a, link, pa, i);
            lemma_ancestry_suffix(s, b, link, pb, jl);
            lemma_ancestry_unique(s, l, link, pa.skip(i), pb.skip(jl));
            assert(pa.skip(i)[im - i] == m);
            assert(pb[jl + im - i] == m);
            assert(j == jl + im - i);
        },
    }
}

} // verus!
