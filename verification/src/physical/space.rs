//! Spatial queries over the containment hierarchy.
//!
//! Space is representation-independent: a consumer asks a question (how far apart, where
//! relative to) and gets an answer without depending on how space is stored. Here positions
//! are local coordinates within each entity's immediate container (the position facts of the
//! schema), composed up the containment hierarchy (via the kernel's hierarchy walk) so any
//! two loaded entities have a relative position in the frame of their lowest common region:
//! a bedroom, a house, or a whole city, whichever encloses both.
//!
//! Frames are assumed axis-aligned; rotation and orientation between frames are a later
//! refinement.

use crate::kernel::fact::{type_bytes, FactKey, FactType};
use crate::kernel::hierarchy::{
    all_distinct, ancestry, ancestry_path, first_shared, is_ancestry,
    law_lowest_common_ancestor_symmetric, lemma_ancestry_suffix, lemma_ancestry_unique,
    lemma_rooted_path, lowest_common_ancestor, parent_of, rooted,
};
use crate::kernel::identity::EntityId;
use crate::kernel::system::CommittedView;
use crate::kernel::triples::{facts_at, first_at, Triple};
use crate::kernel::value::Value;
use crate::arith::{sat_add, saturating_add};
use crate::physical::schema::{contained_in, has_portal, leads_to, position_x, position_y, position_z};
use vstd::prelude::*;

verus! {

// ---- position ----------------------------------------------------------------------------

/// The integer committed at `axis` for `e`; a missing or non-integer value reads as 0, the
/// container's origin.
pub open spec fn axis_value(s: Seq<Triple>, e: EntityId, axis: FactType) -> i64 {
    match first_at(s, (e.0, type_bytes(axis))) {
        Some(f) => match f.value {
            Value::Int(n) => n,
            _ => 0,
        },
        None => 0,
    }
}

/// An entity's local position within its immediate container, one coordinate per axis.
pub open spec fn local_pos(s: Seq<Triple>, e: EntityId) -> Seq<i64> {
    seq![axis_value(s, e, position_x()), axis_value(s, e, position_y()), axis_value(s, e, position_z())]
}

/// The integer committed at `axis` for `e`, or 0.
fn read_axis<V: CommittedView + ?Sized>(view: &V, e: EntityId, axis: FactType) -> (r: i64)
    ensures
        r == axis_value(view.committed(), e, axis),
{
    match view.read(FactKey::new(e, axis)) {
        Some(f) => match f.value {
            Value::Int(n) => n,
            _ => 0,
        },
        None => 0,
    }
}

/// An entity's local position within its immediate container. A missing axis reads as 0,
/// the container's origin.
fn local_position<V: CommittedView + ?Sized>(view: &V, entity: EntityId) -> (p: [i64; 3])
    ensures
        p@ == local_pos(view.committed(), entity),
{
    let x = read_axis(view, entity, position_x());
    let y = read_axis(view, entity, position_y());
    let z = read_axis(view, entity, position_z());
    let p = [x, y, z];
    assert(p@ =~= local_pos(view.committed(), entity));
    p
}

/// The saturating per-axis sum of the local positions of the first `k` entities of `path`.
pub open spec fn sum_prefix(s: Seq<Triple>, path: Seq<EntityId>, k: int) -> Seq<i64>
    decreases k,
{
    if k <= 0 {
        seq![0i64, 0i64, 0i64]
    } else {
        let acc = sum_prefix(s, path, k - 1);
        let l = local_pos(s, path[k - 1]);
        seq![sat_add(acc[0], l[0]), sat_add(acc[1], l[1]), sat_add(acc[2], l[2])]
    }
}

/// The position, in `anc`'s frame, of the entity at the head of `path`: the sum of local
/// positions up to (but not including) `anc`, or `None` if `anc` is not on the path.
pub open spec fn position_along(s: Seq<Triple>, path: Seq<EntityId>, anc: EntityId) -> Option<Seq<i64>> {
    if path.contains(anc) {
        Some(sum_prefix(s, path, choose|k: int| 0 <= k < path.len() && path[k] == anc))
    } else {
        None
    }
}

/// `e`'s position in `anc`'s frame, along `e`'s containment ancestry.
pub open spec fn position_spec(s: Seq<Triple>, e: EntityId, anc: EntityId) -> Option<Seq<i64>> {
    position_along(s, ancestry_path(s, e, contained_in()), anc)
}

/// The exact per-axis sum of the local positions of the first `k` entities of `path`.
pub open spec fn exact_prefix(s: Seq<Triple>, path: Seq<EntityId>, k: int) -> Seq<int>
    decreases k,
{
    if k <= 0 {
        seq![0int, 0int, 0int]
    } else {
        let acc = exact_prefix(s, path, k - 1);
        let l = local_pos(s, path[k - 1]);
        seq![acc[0] + l[0], acc[1] + l[1], acc[2] + l[2]]
    }
}

/// Whether every partial sum of local positions along `path` fits in an `i64`.
pub open spec fn sums_fit(s: Seq<Triple>, path: Seq<EntityId>) -> bool {
    forall|k: int, i: int|
        0 <= k <= path.len() && 0 <= i < 3 ==> i64::MIN <= #[trigger] exact_prefix(s, path, k)[i]
            <= i64::MAX
}

/// Where no partial sum overflows, the saturating sum is the exact one.
proof fn lemma_prefix_exact(s: Seq<Triple>, path: Seq<EntityId>, k: int)
    requires
        0 <= k <= path.len(),
        sums_fit(s, path),
    ensures
        forall|i: int| 0 <= i < 3 ==> sum_prefix(s, path, k)[i] == #[trigger] exact_prefix(s, path, k)[i],
    decreases k,
{
    if k > 0 {
        lemma_prefix_exact(s, path, k - 1);
        assert(i64::MIN <= exact_prefix(s, path, k)[0] <= i64::MAX);
        assert(i64::MIN <= exact_prefix(s, path, k)[1] <= i64::MAX);
        assert(i64::MIN <= exact_prefix(s, path, k)[2] <= i64::MAX);
        assert(sum_prefix(s, path, k - 1)[0] == exact_prefix(s, path, k - 1)[0]);
        assert(sum_prefix(s, path, k - 1)[1] == exact_prefix(s, path, k - 1)[1]);
        assert(sum_prefix(s, path, k - 1)[2] == exact_prefix(s, path, k - 1)[2]);
    }
}

/// The exact sum up to `k` is the sum up to `m` plus the sum of the rest of the way.
proof fn lemma_exact_split(s: Seq<Triple>, path: Seq<EntityId>, m: int, k: int)
    requires
        0 <= m <= k <= path.len(),
    ensures
        forall|i: int|
            0 <= i < 3 ==> #[trigger] exact_prefix(s, path, k)[i] == exact_prefix(s, path, m)[i]
                + exact_prefix(s, path.skip(m), k - m)[i],
    decreases k,
{
    let rest = path.skip(m);
    if k > m {
        lemma_exact_split(s, path, m, k - 1);
        assert(rest[k - 1 - m] == path[k - 1]);
        let l = local_pos(s, path[k - 1]);
        assert(exact_prefix(s, path, k) == seq![
            exact_prefix(s, path, k - 1)[0] + l[0],
            exact_prefix(s, path, k - 1)[1] + l[1],
            exact_prefix(s, path, k - 1)[2] + l[2],
        ]);
        assert(exact_prefix(s, rest, k - m) == seq![
            exact_prefix(s, rest, k - m - 1)[0] + l[0],
            exact_prefix(s, rest, k - m - 1)[1] + l[1],
            exact_prefix(s, rest, k - m - 1)[2] + l[2],
        ]);
    } else {
        assert(exact_prefix(s, rest, 0) == seq![0int, 0int, 0int]);
    }
}

/// On a walk without repeats, an entity sits at one place only.
proof fn lemma_index_unique(path: Seq<EntityId>, x: EntityId, i: int)
    requires
        all_distinct(path),
        0 <= i < path.len(),
        path[i] == x,
    ensures
        (choose|k: int| 0 <= k < path.len() && path[k] == x) == i,
{
    let k = choose|k: int| 0 <= k < path.len() && path[k] == x;
    if k != i {
        if k < i {
            assert(path[k] != path[i]);
        } else {
            assert(path[i] != path[k]);
        }
    }
}

/// Positions compose along containment: an entity sits at the origin of its own frame; its
/// position in a frame exists exactly when that frame is on its containment walk; and its
/// position in `q`'s frame is its position in `p`'s frame plus `p`'s position in `q`'s, for
/// an entity whose walk ends at a root and where no partial sum overflows.
pub proof fn law_position_adds_along_containment(s: Seq<Triple>, e: EntityId, p: EntityId, q: EntityId)
    requires
        rooted(s, e, contained_in()),
        sums_fit(s, ancestry_path(s, e, contained_in())),
        sums_fit(s, ancestry_path(s, p, contained_in())),
    ensures
        position_spec(s, e, e) == Some(seq![0i64, 0i64, 0i64]),
        position_spec(s, e, q) is None <==> !ancestry_path(s, e, contained_in()).contains(q),
        match (position_spec(s, e, p), position_spec(s, p, q)) {
            (Some(a), Some(b)) => position_spec(s, e, q) matches Some(c) && forall|i: int|
                0 <= i < 3 ==> #[trigger] c[i] == a[i] + b[i],
            _ => true,
        },
{
    let ci = contained_in();
    let path = ancestry_path(s, e, ci);
    lemma_rooted_path(s, e, ci);
    assert(path[0] == e);
    lemma_index_unique(path, e, 0);
    assert(sum_prefix(s, path, 0) =~= seq![0i64, 0i64, 0i64]);
    if let (Some(a), Some(b)) = (position_spec(s, e, p), position_spec(s, p, q)) {
        let kp = choose|k: int| 0 <= k < path.len() && path[k] == p;
        let rest = path.skip(kp);
        lemma_ancestry_suffix(s, e, ci, path, kp);
        assert(rest.last() == path.last());
        assert(rooted(s, p, ci));
        lemma_rooted_path(s, p, ci);
        lemma_ancestry_unique(s, p, ci, rest, ancestry_path(s, p, ci));
        let kq2 = choose|k: int| 0 <= k < rest.len() && rest[k] == q;
        let kq = kp + kq2;
        assert(path[kq] == q);
        lemma_index_unique(path, q, kq);
        lemma_prefix_exact(s, path, kp);
        lemma_prefix_exact(s, path, kq);
        lemma_prefix_exact(s, rest, kq2);
        lemma_exact_split(s, path, kp, kq);
        let c = position_spec(s, e, q)->Some_0;
        assert forall|i: int| 0 <= i < 3 implies #[trigger] c[i] == a[i] + b[i] by {
            assert(exact_prefix(s, path, kq)[i] == exact_prefix(s, path, kp)[i] + exact_prefix(
                s,
                rest,
                kq2,
            )[i]);
        }
    }
}

/// `entity`'s position expressed in `ancestor`'s coordinate frame: the sum of local positions
/// from `entity` up to (but not including) `ancestor`. `None` if `ancestor` does not contain
/// `entity` (including when the containment walk runs into a malformed cycle first).
pub fn position_in<V: CommittedView + ?Sized>(view: &V, entity: EntityId, ancestor: EntityId) -> (r:
    Option<[i64; 3]>)
    ensures
        match (r, position_spec(view.committed(), entity, ancestor)) {
            (Some(p), Some(q)) => p@ == q,
            (None, None) => true,
            _ => false,
        },
{
    let path = ancestry(view, entity, contained_in());
    let ghost s = view.committed();
    let mut sum: [i64; 3] = [0, 0, 0];
    let mut i: usize = 0;
    assert(sum@ =~= sum_prefix(s, path@, 0));
    while i < path.len()
        invariant
            i <= path.len(),
            s == view.committed(),
            path@ == ancestry_path(s, entity, contained_in()),
            is_ancestry(s, entity, contained_in(), path@),
            sum@ == sum_prefix(s, path@, i as int),
            forall|j: int| 0 <= j < i ==> path@[j] != ancestor,
        decreases path.len() - i,
    {
        if path[i].0 == ancestor.0 {
            proof {
                assert(path@[i as int] == ancestor);
                assert(path@.contains(ancestor));
                let k = choose|k: int| 0 <= k < path@.len() && path@[k] == ancestor;
                if k != i {
                    assert(all_distinct(path@));
                    if k < i {
                        assert(path@[k] != path@[i as int]);
                    } else {
                        assert(path@[i as int] != path@[k]);
                    }
                }
            }
            return Some(sum);
        }
        let l = local_position(view, path[i]);
        let x = saturating_add(sum[0], l[0]);
        let y = saturating_add(sum[1], l[1]);
        let z = saturating_add(sum[2], l[2]);
        sum = [x, y, z];
        assert(sum@ =~= sum_prefix(s, path@, i + 1));
        i = i + 1;
    }
    proof {
        if path@.contains(ancestor) {
            let k = choose|k: int| 0 <= k < path@.len() && path@[k] == ancestor;
            assert(path@[k] != ancestor);
        }
    }
    None
}

/// The displacement from `from` to `to` in the frame of their lowest common containing
/// region, in exact integers; `None` if they share no common container.
pub open spec fn relative_spec(s: Seq<Triple>, from: EntityId, to: EntityId) -> Option<Seq<int>> {
    match first_shared(ancestry_path(s, from, contained_in()), ancestry_path(s, to, contained_in())) {
        None => None,
        Some(l) => match (position_spec(s, from, l), position_spec(s, to, l)) {
            (Some(a), Some(b)) => Some(seq![b[0] - a[0], b[1] - a[1], b[2] - a[2]]),
            _ => None,
        },
    }
}

/// Relative position is antisymmetric: the displacement from `b` to `a` is the negation of
/// the displacement from `a` to `b`, and one exists exactly when the other does, for
/// entities whose containment walks end at a root.
pub proof fn law_relative_position_antisymmetric(s: Seq<Triple>, a: EntityId, b: EntityId)
    requires
        rooted(s, a, contained_in()),
        rooted(s, b, contained_in()),
    ensures
        relative_spec(s, b, a) == match relative_spec(s, a, b) {
            Some(d) => Some(seq![-d[0], -d[1], -d[2]]),
            None => None,
        },
{
    law_lowest_common_ancestor_symmetric(s, a, b, contained_in());
    if let Some(d) = relative_spec(s, a, b) {
        assert(relative_spec(s, b, a)->Some_0 =~= seq![-d[0], -d[1], -d[2]]);
    }
}

/// Whether a displacement, if there is one, fits in 64-bit coordinates.
pub open spec fn fits_i64(d: Option<Seq<int>>) -> bool {
    match d {
        Some(v) => forall|i: int| 0 <= i < 3 ==> i64::MIN <= #[trigger] v[i] <= i64::MAX,
        None => true,
    }
}

/// The first entity of `pa` that occurs in `pb` occurs in both.
proof fn lemma_first_shared_in_both(pa: Seq<EntityId>, pb: Seq<EntityId>)
    ensures
        first_shared(pa, pb) matches Some(x) ==> pa.contains(x) && pb.contains(x),
    decreases pa.len(),
{
    if pa.len() > 0 && !pb.contains(pa[0]) {
        lemma_first_shared_in_both(pa.drop_first(), pb);
        if let Some(x) = first_shared(pa.drop_first(), pb) {
            let k = choose|k: int| 0 <= k < pa.drop_first().len() && pa.drop_first()[k] == x;
            assert(pa[k + 1] == x);
        }
    } else if pa.len() > 0 {
        assert(pa[0] == pa[0]);
        assert(pa.contains(pa[0]));
    }
}

/// The displacement from `from` to `to`, expressed in the frame of their lowest common
/// containing region. `None` if they share no common container, e.g. one is not loaded into
/// a shared hierarchy.
pub fn relative_position<V: CommittedView + ?Sized>(view: &V, from: EntityId, to: EntityId) -> (r:
    Option<[i64; 3]>)
    requires
        fits_i64(relative_spec(view.committed(), from, to)),
    ensures
        match (r, relative_spec(view.committed(), from, to)) {
            (Some(p), Some(d)) => forall|i: int| 0 <= i < 3 ==> p@[i] == #[trigger] d[i],
            (None, None) => true,
            _ => false,
        },
{
    let ghost s = view.committed();
    proof {
        lemma_first_shared_in_both(
            ancestry_path(s, from, contained_in()),
            ancestry_path(s, to, contained_in()),
        );
    }
    let lca = match lowest_common_ancestor(view, from, to, contained_in()) {
        Some(l) => l,
        None => {
            return None;
        },
    };
    let from_pos = match position_in(view, from, lca) {
        Some(p) => p,
        None => {
            return None;
        },
    };
    let to_pos = match position_in(view, to, lca) {
        Some(p) => p,
        None => {
            return None;
        },
    };
    let ghost d = relative_spec(s, from, to)->Some_0;
    assert(d[0] == to_pos[0] - from_pos[0]);
    assert(d[1] == to_pos[1] - from_pos[1]);
    assert(d[2] == to_pos[2] - from_pos[2]);
    let out = [to_pos[0] - from_pos[0], to_pos[1] - from_pos[1], to_pos[2] - from_pos[2]];
    Some(out)
}

/// Whether `r` is the floor of the square root of `n`.
pub open spec fn is_floor_sqrt(n: int, r: int) -> bool {
    0 <= r && r * r <= n < (r + 1) * (r + 1)
}

/// The floor of the square root of a non-negative integer.
pub open spec fn floor_sqrt(n: int) -> int {
    choose|r: int| is_floor_sqrt(n, r)
}

/// The floor of a square root is unique.
pub proof fn lemma_floor_sqrt_unique(n: int, a: int, b: int)
    requires
        is_floor_sqrt(n, a),
        is_floor_sqrt(n, b),
    ensures
        a == b,
{
    if a < b {
        assert((a + 1) * (a + 1) <= b * b) by (nonlinear_arith)
            requires
                0 <= a,
                a + 1 <= b,
        ;
    } else if b < a {
        assert((b + 1) * (b + 1) <= a * a) by (nonlinear_arith)
            requires
                0 <= b,
                b + 1 <= a,
        ;
    }
}

/// For positive `m` and non-negative `n`, `m <= n / m` exactly when `m * m <= n`.
proof fn lemma_square_at_most(m: int, n: int)
    requires
        m > 0,
        n >= 0,
    ensures
        (m <= n / m) == (m * m <= n),
{
    let q = n / m;
    let r = n % m;
    assert(n == m * q + r && 0 <= r < m) by (nonlinear_arith)
        requires
            m > 0,
            q == n / m,
            r == n % m,
    ;
    if m <= q {
        assert(m * m <= n) by (nonlinear_arith)
            requires
                m > 0,
                m <= q,
                n == m * q + r,
                0 <= r,
        ;
    } else {
        assert(n < m * m) by (nonlinear_arith)
            requires
                m > 0,
                q + 1 <= m,
                n == m * q + r,
                r < m,
        ;
    }
}

/// Floor of the integer square root of a non-negative `i128`, by binary search; zero for a
/// negative input.
pub fn isqrt(n: i128) -> (r: i128)
    ensures
        n < 0 ==> r == 0,
        n >= 0 ==> is_floor_sqrt(n as int, r as int),
{
    if n < 2 {
        if n < 0 {
            return 0;
        }
        assert(is_floor_sqrt(n as int, n as int)) by (nonlinear_arith)
            requires
                0 <= n < 2,
        ;
        return n;
    }
    let mut hi: i128 = 1;
    proof {
        lemma_square_at_most(1, n as int);
    }
    let mut grown = false;
    while hi <= n / hi
        invariant
            1 <= hi <= n,
            n >= 2,
            hi * hi <= n ==> hi <= n / hi,
            grown ==> (hi / 2) * (hi / 2) <= n,
            grown ==> hi % 2 == 0,
            !grown ==> hi == 1,
        decreases n - hi,
    {
        proof {
            lemma_square_at_most(hi as int, n as int);
            assert(hi * hi <= n);
            assert(2 * hi <= n) by (nonlinear_arith)
                requires
                    1 <= hi,
                    hi * hi <= n,
                    n >= 2,
            ;
        }
        hi = hi * 2;
        grown = true;
        proof {
            assert(hi / 2 * (hi / 2) <= n);
            lemma_square_at_most(hi as int, n as int);
        }
    }
    proof {
        lemma_square_at_most(hi as int, n as int);
        if !grown {
            assert(n / 1 == n);
        }
    }
    let mut lo: i128 = hi / 2;
    let mut top: i128 = hi;
    proof {
        assert(n < (top + 1) * (top + 1)) by (nonlinear_arith)
            requires
                n < hi * hi,
                top == hi,
                hi >= 1,
        ;
    }
    while lo < top
        invariant
            1 <= lo <= top,
            n >= 2,
            lo * lo <= n,
            n < (top + 1) * (top + 1),
        decreases top - lo,
    {
        let mid = lo + (top - lo + 1) / 2;
        proof {
            lemma_square_at_most(mid as int, n as int);
        }
        if mid <= n / mid {
            lo = mid;
        } else {
            top = mid - 1;
        }
    }
    lo
}

/// Whether the squared length of a displacement, if there is one, fits in 128 bits.
pub open spec fn square_fits(d: Option<Seq<int>>) -> bool {
    match d {
        Some(v) => v[0] * v[0] + v[1] * v[1] + v[2] * v[2] <= i128::MAX,
        None => true,
    }
}

/// The straight-line length of a displacement, floored.
pub open spec fn distance_spec(d: Option<Seq<int>>) -> Option<i64> {
    match d {
        Some(v) => Some(floor_sqrt(v[0] * v[0] + v[1] * v[1] + v[2] * v[2]) as i64),
        None => None,
    }
}

/// Every non-negative integer has a floor square root.
proof fn lemma_floor_sqrt_exists(n: int)
    requires
        n >= 0,
    ensures
        is_floor_sqrt(n, floor_sqrt(n)),
    decreases n,
{
    if n == 0 {
        assert(is_floor_sqrt(0, 0));
    } else {
        lemma_floor_sqrt_exists(n - 1);
        let q = floor_sqrt(n - 1);
        if (q + 1) * (q + 1) <= n {
            assert(is_floor_sqrt(n, q + 1)) by (nonlinear_arith)
                requires
                    0 <= q,
                    n - 1 < (q + 1) * (q + 1),
                    (q + 1) * (q + 1) <= n,
            ;
        } else {
            assert(is_floor_sqrt(n, q));
        }
    }
}

/// Distance is the floor of the exact length: for a displacement whose components are below
/// 2^62 in magnitude, the distance `r` satisfies `r * r <= |d|^2 < (r + 1) * (r + 1)`.
pub proof fn law_distance_is_floor_root(d: Seq<int>)
    requires
        d.len() == 3,
        forall|i: int| 0 <= i < 3 ==> -0x4000_0000_0000_0000 < #[trigger] d[i] < 0x4000_0000_0000_0000,
    ensures
        distance_spec(Some(d)) matches Some(r) && is_floor_sqrt(
            d[0] * d[0] + d[1] * d[1] + d[2] * d[2],
            r as int,
        ),
{
    let (a, b, c) = (d[0], d[1], d[2]);
    let n = a * a + b * b + c * c;
    assert(0 <= n < 3 * 0x1000_0000_0000_0000_0000_0000_0000_0000) by (nonlinear_arith)
        requires
            -0x4000_0000_0000_0000 < a < 0x4000_0000_0000_0000,
            -0x4000_0000_0000_0000 < b < 0x4000_0000_0000_0000,
            -0x4000_0000_0000_0000 < c < 0x4000_0000_0000_0000,
            n == a * a + b * b + c * c,
    ;
    lemma_floor_sqrt_exists(n);
    let r = floor_sqrt(n);
    assert(r * r <= n);
    if r >= 0x8000_0000_0000_0000 {
        assert(r * r >= 0x4000_0000_0000_0000_0000_0000_0000_0000) by (nonlinear_arith)
            requires
                r >= 0x8000_0000_0000_0000,
        ;
        assert(false);
    }
    assert(0 <= r < 0x8000_0000_0000_0000);
    assert((r as i64) as int == r);
}

/// The straight-line distance between `from` and `to` in centimetres, or `None` if they share
/// no common container. Exact integer arithmetic (an `i128` intermediate), so it is
/// deterministic.
pub fn distance<V: CommittedView + ?Sized>(view: &V, from: EntityId, to: EntityId) -> (r: Option<i64>)
    requires
        fits_i64(relative_spec(view.committed(), from, to)),
        square_fits(relative_spec(view.committed(), from, to)),
    ensures
        r == distance_spec(relative_spec(view.committed(), from, to)),
{
    let d = match relative_position(view, from, to) {
        Some(d) => d,
        None => {
            return None;
        },
    };
    let a = d[0] as i128;
    let b = d[1] as i128;
    let c = d[2] as i128;
    proof {
        assert(a * a <= 0x4000_0000_0000_0000_0000_0000_0000_0000) by (nonlinear_arith)
            requires
                -0x8000_0000_0000_0000 <= a <= 0x7fff_ffff_ffff_ffff,
        ;
        assert(b * b <= 0x4000_0000_0000_0000_0000_0000_0000_0000) by (nonlinear_arith)
            requires
                -0x8000_0000_0000_0000 <= b <= 0x7fff_ffff_ffff_ffff,
        ;
        assert(c * c <= 0x4000_0000_0000_0000_0000_0000_0000_0000) by (nonlinear_arith)
            requires
                -0x8000_0000_0000_0000 <= c <= 0x7fff_ffff_ffff_ffff,
        ;
        assert(0 <= a * a && 0 <= b * b && 0 <= c * c) by (nonlinear_arith);
        let v = relative_spec(view.committed(), from, to)->Some_0;
        assert(a == v[0] && b == v[1] && c == v[2]);
    }
    let sq = a * a + b * b + c * c;
    let root = isqrt(sq);
    proof {
        let ghost v = relative_spec(view.committed(), from, to)->Some_0;
        assert(sq as int == v[0] * v[0] + v[1] * v[1] + v[2] * v[2]);
        lemma_floor_sqrt_unique(sq as int, root as int, floor_sqrt(sq as int));
    }
    Some(#[verifier::truncate] (root as i64))
}

// ---- connectivity: portals ---------------------------------------------------------------
//
// A portal is a located connection from a spot in one region to another region.
// Connectivity is not adjacency: two regions may border yet be joined by no portal. These
// queries answer "can I get from here to there, and by what steps": the navigational
// question, distinct from straight-line distance.

/// The entities referenced by a list of facts, in order (other values are skipped).
pub open spec fn entity_refs(fs: Seq<crate::kernel::fact::Fact>) -> Seq<EntityId>
    decreases fs.len(),
{
    if fs.len() == 0 {
        Seq::empty()
    } else {
        let r = entity_refs(fs.drop_last());
        match fs.last().value {
            Value::Entity(e) => r.push(e),
            _ => r,
        }
    }
}

/// The entities every value of a cardinality-many reference fact of `e` names.
pub open spec fn refs_of(s: Seq<Triple>, e: EntityId, ft: FactType) -> Seq<EntityId> {
    entity_refs(facts_at(s, (e.0, type_bytes(ft))))
}

/// The entities referenced by `facts`, in order.
pub fn entities_in(facts: &[crate::kernel::fact::Fact]) -> (r: Vec<EntityId>)
    ensures
        r@ == entity_refs(facts@),
{
    let mut r: Vec<EntityId> = Vec::new();
    let mut i: usize = 0;
    while i < facts.len()
        invariant
            i <= facts.len(),
            r@ == entity_refs(facts@.take(i as int)),
        decreases facts.len() - i,
    {
        assert(facts@.take(i + 1).drop_last() =~= facts@.take(i as int));
        assert(facts@.take(i + 1).last() == facts@[i as int]);
        match facts[i].value {
            Value::Entity(e) => {
                r.push(e);
            },
            _ => {},
        }
        i = i + 1;
    }
    assert(facts@.take(i as int) =~= facts@);
    r
}

/// The portals a region hosts: its exits.
pub fn portals_in<V: CommittedView + ?Sized>(view: &V, region: EntityId) -> (r: Vec<EntityId>)
    ensures
        r@ == refs_of(view.committed(), region, has_portal()),
{
    let facts = view.read_all(FactKey::new(region, has_portal()));
    entities_in(facts.as_slice())
}

/// The region a portal leads to (its far side), or `None` if it currently leads nowhere.
pub fn portal_destination<V: CommittedView + ?Sized>(view: &V, portal: EntityId) -> (r: Option<EntityId>)
    ensures
        r == parent_of(view.committed(), portal, leads_to()),
{
    match view.read(FactKey::new(portal, leads_to())) {
        Some(f) => match f.value {
            Value::Entity(dest) => Some(dest),
            _ => None,
        },
        None => None,
    }
}

/// Whether stepping through one of `a`'s portals arrives in `b`.
pub open spec fn one_step(s: Seq<Triple>, a: EntityId, b: EntityId) -> bool {
    exists|i: int|
        0 <= i < refs_of(s, a, has_portal()).len() && parent_of(
            s,
            #[trigger] refs_of(s, a, has_portal())[i],
            leads_to(),
        ) == Some(b)
}

/// Entities in strictly ascending id order (so each at most once).
pub open spec fn ids_ascending(v: Seq<EntityId>) -> bool {
    forall|a: int, b: int| 0 <= a < b < v.len() ==> (#[trigger] v[a]).0 < (#[trigger] v[b]).0
}

/// Add `x` to an ascending list of entities; whether it was new.
pub fn insert_entity(set: &mut Vec<EntityId>, x: EntityId) -> (added: bool)
    requires
        ids_ascending(old(set)@),
    ensures
        ids_ascending(final(set)@),
        forall|y: EntityId| final(set)@.contains(y) == (y == x || old(set)@.contains(y)),
        added == !old(set)@.contains(x),
{
    let mut p: usize = 0;
    while p < set.len() && set[p].0 < x.0
        invariant
            p <= set.len(),
            set@ == old(set)@,
            forall|q: int| 0 <= q < p ==> (#[trigger] set@[q]).0 < x.0,
        decreases set.len() - p,
    {
        p = p + 1;
    }
    if p < set.len() && set[p].0 == x.0 {
        assert(set@[p as int] == x);
        return false;
    }
    let ghost before = set@;
    assert(before == old(set)@);
    proof {
        assert forall|y: EntityId| before.contains(y) implies y != x by {
            let m = choose|m: int| 0 <= m < before.len() && before[m] == y;
            if m >= p {
                if m > p {
                    assert(before[p as int].0 < before[m].0);
                }
            }
        }
    }
    set.insert(p, x);
    proof {
        assert forall|a: int, b: int| 0 <= a < b < set@.len() implies (#[trigger] set@[a]).0
            < (#[trigger] set@[b]).0 by {
            if a < p && b > p {
                assert(before[a].0 < before[b - 1].0);
            } else if a == p && b > p {
                if b - 1 > p {
                    assert(before[p as int].0 < before[b - 1].0);
                }
            } else if a > p {
                assert(before[a - 1].0 < before[b - 1].0);
            } else if b < p {
                assert(before[a].0 < before[b].0);
            }
        }
        assert forall|y: EntityId| #[trigger] set@.contains(y) <==> (y == x || before.contains(y)) by {
            if set@.contains(y) {
                let m = choose|m: int| 0 <= m < set@.len() && set@[m] == y;
                if m < p {
                    assert(before[m] == y);
                } else if m > p {
                    assert(before[m - 1] == y);
                }
            }
            if before.contains(y) {
                let m = choose|m: int| 0 <= m < before.len() && before[m] == y;
                if m < p {
                    assert(set@[m] == y);
                } else {
                    assert(set@[m + 1] == y);
                }
            }
            if y == x {
                assert(set@[p as int] == x);
            }
        }
    }
    true
}

/// Whether `e` is in the list.
fn holds_entity(set: &Vec<EntityId>, e: EntityId) -> (r: bool)
    ensures
        r == set@.contains(e),
{
    let mut i: usize = 0;
    while i < set.len()
        invariant
            i <= set.len(),
            forall|j: int| 0 <= j < i ==> set@[j] != e,
        decreases set.len() - i,
    {
        if set[i].0 == e.0 {
            assert(set@[i as int] == e);
            return true;
        }
        i = i + 1;
    }
    false
}

/// The regions directly reachable from `region` by stepping through one of its portals
/// (deduplicated, sorted by id). One hop only.
pub fn destinations<V: CommittedView + ?Sized>(view: &V, region: EntityId) -> (r: Vec<EntityId>)
    ensures
        ids_ascending(r@),
        forall|x: EntityId| r@.contains(x) == one_step(view.committed(), region, x),
{
    let ghost s = view.committed();
    let portals = portals_in(view, region);
    let mut set: Vec<EntityId> = Vec::new();
    let mut i: usize = 0;
    while i < portals.len()
        invariant
            i <= portals.len(),
            s == view.committed(),
            portals@ == refs_of(s, region, has_portal()),
            ids_ascending(set@),
            forall|x: EntityId|
                set@.contains(x) == exists|j: int|
                    0 <= j < i && parent_of(s, #[trigger] portals@[j], leads_to()) == Some(x),
        decreases portals.len() - i,
    {
        let dest = portal_destination(view, portals[i]);
        let ghost before = set@;
        match dest {
            Some(d) => {
                insert_entity(&mut set, d);
            },
            None => {},
        }
        proof {
            assert forall|x: EntityId| set@.contains(x) == exists|j: int|
                0 <= j < i + 1 && parent_of(s, #[trigger] portals@[j], leads_to()) == Some(x) by {
                if set@.contains(x) && !before.contains(x) {
                    assert(parent_of(s, portals@[i as int], leads_to()) == Some(x));
                }
                if exists|j: int|
                    0 <= j < i + 1 && parent_of(s, #[trigger] portals@[j], leads_to()) == Some(x) {
                    let j = choose|j: int|
                        0 <= j < i + 1 && parent_of(s, #[trigger] portals@[j], leads_to()) == Some(x);
                    if j < i {
                        assert(before.contains(x));
                    }
                }
            }
        }
        i = i + 1;
    }
    set
}

/// Whether `p` is a route through portals from `origin` to `x`.
pub open spec fn is_route(s: Seq<Triple>, origin: EntityId, x: EntityId, p: Seq<EntityId>) -> bool {
    &&& p.len() >= 1
    &&& p[0] == origin
    &&& p.last() == x
    &&& forall|i: int| 0 <= i < p.len() - 1 ==> one_step(s, #[trigger] p[i], p[i + 1])
}

/// Whether `x` can be reached from `origin` by traversing portals (a region reaches itself).
pub open spec fn reachable(s: Seq<Triple>, origin: EntityId, x: EntityId) -> bool {
    exists|p: Seq<EntityId>| is_route(s, origin, x, p)
}

/// Every region on a route from a region of a portal-closed set is in the set.
proof fn lemma_route_stays_in(s: Seq<Triple>, origin: EntityId, x: EntityId, p: Seq<EntityId>, set: Set<EntityId>, n: int)
    requires
        is_route(s, origin, x, p),
        set.contains(origin),
        forall|a: EntityId, b: EntityId| set.contains(a) && #[trigger] one_step(s, a, b) ==> set.contains(b),
        0 <= n < p.len(),
    ensures
        set.contains(p[n]),
    decreases n,
{
    if n > 0 {
        lemma_route_stays_in(s, origin, x, p, set, n - 1);
        assert(one_step(s, p[n - 1], p[n]));
    }
}

/// The regions reachable from an origin are the least set that holds the origin and is
/// closed under crossing a portal: the origin is reachable, crossing a portal from a
/// reachable region reaches another, and any set closed that way holds every reachable
/// region.
pub proof fn law_reachable_is_least_closed_set(s: Seq<Triple>, origin: EntityId, set: Set<EntityId>)
    ensures
        reachable(s, origin, origin),
        forall|a: EntityId, b: EntityId|
            reachable(s, origin, a) && #[trigger] one_step(s, a, b) ==> reachable(s, origin, b),
        set.contains(origin) && (forall|a: EntityId, b: EntityId|
            set.contains(a) && #[trigger] one_step(s, a, b) ==> set.contains(b)) ==> forall|x: EntityId|
            reachable(s, origin, x) ==> #[trigger] set.contains(x),
{
    assert(is_route(s, origin, origin, seq![origin]));
    assert forall|a: EntityId, b: EntityId|
        reachable(s, origin, a) && #[trigger] one_step(s, a, b) implies reachable(s, origin, b) by {
        let p = choose|p: Seq<EntityId>| is_route(s, origin, a, p);
        let q = p.push(b);
        assert forall|i: int| 0 <= i < q.len() - 1 implies one_step(s, #[trigger] q[i], q[i + 1]) by {
            if i < p.len() - 1 {
                assert(q[i] == p[i] && q[i + 1] == p[i + 1]);
            } else {
                assert(q[i] == a);
            }
        }
        assert(is_route(s, origin, b, q));
    }
    if set.contains(origin) && (forall|a: EntityId, b: EntityId|
        set.contains(a) && #[trigger] one_step(s, a, b) ==> set.contains(b)) {
        assert forall|x: EntityId| reachable(s, origin, x) implies #[trigger] set.contains(x) by {
            let p = choose|p: Seq<EntityId>| is_route(s, origin, x, p);
            lemma_route_stays_in(s, origin, x, p, set, p.len() - 1);
        }
    }
}

/// Reachability is a preorder: every region reaches itself, and a region reaches whatever
/// any region it reaches reaches.
pub proof fn law_reachability_is_a_preorder(s: Seq<Triple>, a: EntityId, b: EntityId, c: EntityId)
    ensures
        reachable(s, a, a),
        reachable(s, a, b) && reachable(s, b, c) ==> reachable(s, a, c),
{
    assert(is_route(s, a, a, seq![a]));
    if reachable(s, a, b) && reachable(s, b, c) {
        let p = choose|p: Seq<EntityId>| is_route(s, a, b, p);
        let q = choose|q: Seq<EntityId>| is_route(s, b, c, q);
        let r = p + q.drop_first();
        assert forall|i: int| 0 <= i < r.len() - 1 implies one_step(s, #[trigger] r[i], r[i + 1]) by {
            if i < p.len() - 1 {
                assert(r[i] == p[i] && r[i + 1] == p[i + 1]);
            } else if i == p.len() - 1 {
                assert(r[i] == p.last());
                assert(r[i + 1] == q[1]);
                assert(one_step(s, q[0], q[1]));
            } else {
                let k = i - p.len() + 1;
                assert(r[i] == q[k] && r[i + 1] == q[k + 1]);
            }
        }
        if q.len() == 1 {
            assert(r =~= p);
        } else {
            assert(r.last() == q.last());
        }
        assert(is_route(s, a, c, r));
    }
}

/// A route extended by one step is a route.
proof fn lemma_route_extend(s: Seq<Triple>, origin: EntityId, x: EntityId, p: Seq<EntityId>, y: EntityId)
    requires
        is_route(s, origin, x, p),
        one_step(s, x, y),
    ensures
        is_route(s, origin, y, p.push(y)),
{
    let q = p.push(y);
    assert forall|i: int| 0 <= i < q.len() - 1 implies one_step(s, #[trigger] q[i], q[i + 1]) by {
        if i < p.len() - 1 {
            assert(q[i] == p[i] && q[i + 1] == p[i + 1]);
        } else {
            assert(q[i] == p.last());
        }
    }
}

/// A set that holds `origin` and is closed under steps holds every region `origin` reaches.
proof fn lemma_closed_holds_routes(s: Seq<Triple>, origin: EntityId, set: Seq<EntityId>, p: Seq<EntityId>)
    requires
        set.contains(origin),
        forall|a: EntityId, b: EntityId| set.contains(a) && one_step(s, a, b) ==> set.contains(b),
        p.len() >= 1,
        p[0] == origin,
        forall|i: int| 0 <= i < p.len() - 1 ==> one_step(s, #[trigger] p[i], p[i + 1]),
    ensures
        set.contains(p.last()),
    decreases p.len(),
{
    if p.len() > 1 {
        let q = p.drop_last();
        assert forall|i: int| 0 <= i < q.len() - 1 implies one_step(s, #[trigger] q[i], q[i + 1]) by {
            assert(q[i] == p[i] && q[i + 1] == p[i + 1]);
        }
        lemma_closed_holds_routes(s, origin, set, q);
        assert(one_step(s, p[p.len() - 2], p[p.len() - 1]));
    }
}

/// Every region reachable from `origin` by traversing portals, including `origin` itself,
/// sorted by id. A breadth-first walk of the portal graph; cycles are handled by the visited
/// set. This is what a sealed room fails and a room with a staircase passes, and it routes a
/// basement to the yard only through the ground floor, because that is the only portal path.
pub fn reachable_regions<V: CommittedView + ?Sized>(view: &V, origin: EntityId) -> (r: Vec<EntityId>)
    ensures
        ids_ascending(r@),
        forall|x: EntityId| r@.contains(x) == reachable(view.committed(), origin, x),
{
    let ghost s = view.committed();
    let mut seen: Vec<EntityId> = Vec::new();
    let mut queue: Vec<EntityId> = Vec::new();
    insert_entity(&mut seen, origin);
    queue.push(origin);
    proof {
        assert(is_route(s, origin, origin, seq![origin]));
    }
    let mut head: usize = 0;
    while head < queue.len()
        invariant
            head <= queue.len(),
            s == view.committed(),
            ids_ascending(seen@),
            seen@.contains(origin),
            forall|x: EntityId| #[trigger] seen@.contains(x) ==> reachable(s, origin, x),
            forall|x: EntityId| seen@.contains(x) ==> #[trigger] queue@.contains(x),
            forall|k: int| 0 <= k < queue.len() ==> seen@.contains(#[trigger] queue@[k]),
            forall|k: int, y: EntityId|
                0 <= k < head && #[trigger] one_step(s, queue@[k], y) ==> seen@.contains(y),
        decreases usize::MAX - queue.len(), queue.len() - head,
    {
        let region = queue[head];
        let next = destinations(view, region);
        let mut j: usize = 0;
        let ghost queue_before = queue@;
        while j < next.len()
            invariant
                j <= next.len(),
                head < queue.len(),
                queue_before.len() <= queue.len(),
                queue@.len() < usize::MAX ==> true,
                forall|k: int| 0 <= k < queue_before.len() ==> queue@[k] == queue_before[k],
                region == queue@[head as int],
                s == view.committed(),
                ids_ascending(next@),
                forall|x: EntityId| next@.contains(x) == one_step(s, region, x),
                ids_ascending(seen@),
                seen@.contains(origin),
                forall|x: EntityId| #[trigger] seen@.contains(x) ==> reachable(s, origin, x),
                forall|x: EntityId| seen@.contains(x) ==> #[trigger] queue@.contains(x),
                forall|k: int| 0 <= k < queue.len() ==> seen@.contains(#[trigger] queue@[k]),
                forall|k: int, y: EntityId|
                    0 <= k < head && #[trigger] one_step(s, queue@[k], y) ==> seen@.contains(y),
                forall|q: int| 0 <= q < j ==> seen@.contains(#[trigger] next@[q]),
            decreases next.len() - j,
        {
            let d = next[j];
            let ghost seen_before = seen@;
            let ghost q_before = queue@;
            if insert_entity(&mut seen, d) {
                queue.push(d);
                proof {
                    assert(next@.contains(d));
                    assert(one_step(s, region, d));
                    assert(seen_before.contains(region));
                    let p = choose|p: Seq<EntityId>| is_route(s, origin, region, p);
                    lemma_route_extend(s, origin, region, p, d);
                    assert(queue@[queue@.len() - 1] == d);
                    assert forall|x: EntityId| seen@.contains(x) implies #[trigger] queue@.contains(x) by {
                        if x != d {
                            assert(seen_before.contains(x));
                            assert(q_before.contains(x));
                            let m = choose|m: int| 0 <= m < q_before.len() && q_before[m] == x;
                            assert(queue@[m] == x);
                        }
                    }
                    assert forall|k: int| 0 <= k < queue.len() implies seen@.contains(#[trigger] queue@[k]) by {
                        if k < q_before.len() {
                            assert(queue@[k] == q_before[k]);
                            assert(seen_before.contains(q_before[k]));
                        }
                    }
                    assert forall|k: int, y: EntityId|
                        0 <= k < head && #[trigger] one_step(s, queue@[k], y) implies seen@.contains(y) by {
                        assert(queue@[k] == q_before[k]);
                        assert(seen_before.contains(y));
                    }
                }
            }
            j = j + 1;
        }
        proof {
            assert forall|k: int, y: EntityId|
                0 <= k < head + 1 && #[trigger] one_step(s, queue@[k], y) implies seen@.contains(y) by {
                if k == head {
                    assert(next@.contains(y));
                    let q = choose|q: int| 0 <= q < next@.len() && next@[q] == y;
                }
            }
        }
        head = head + 1;
    }
    proof {
        assert forall|x: EntityId| seen@.contains(x) == reachable(s, origin, x) by {
            if reachable(s, origin, x) {
                let p = choose|p: Seq<EntityId>| is_route(s, origin, x, p);
                assert forall|a: EntityId, b: EntityId| seen@.contains(a) && one_step(s, a, b) implies seen@.contains(b) by {
                    assert(queue@.contains(a));
                    let k = choose|k: int| 0 <= k < queue@.len() && queue@[k] == a;
                    assert(one_step(s, queue@[k], b));
                }
                lemma_closed_holds_routes(s, origin, seen@, p);
            }
        }
    }
    seen
}

/// Whether `to` can be reached from `from` by traversing portals. `true` for a region and
/// itself.
pub fn can_reach<V: CommittedView + ?Sized>(view: &V, from: EntityId, to: EntityId) -> (r: bool)
    ensures
        r == reachable(view.committed(), from, to),
{
    let regions = reachable_regions(view, from);
    holds_entity(&regions, to)
}

} // verus!
