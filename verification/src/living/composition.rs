//! Proposal composition for Living-owned fact types.
//!
//! Body heat is a scalar: at most one set establishes a base and deltas sum onto it, the
//! same additive rule the physical scalars follow, with the living domain's own reasons.

use crate::arith::{sat_add, saturating_add};
use crate::kernel::domain::{ResolveError, Resolved};
use crate::kernel::proposal::Change;
use crate::kernel::value::Value;
use vstd::prelude::*;

verus! {

/// The error for a body-heat set that does not carry an integer.
pub open spec fn heat_needs_integer() -> ResolveError {
    ResolveError { reason: "body heat must be an integer value" }
}

/// The error for two competing body-heat sets on one tick.
pub open spec fn heat_competing_sets() -> ResolveError {
    ResolveError { reason: "two competing body-heat sets with no declared tie-break" }
}

/// The error for a set change proposed against body heat.
pub open spec fn heat_single_valued() -> ResolveError {
    ResolveError { reason: "body heat is single-valued; use Set/Create/Delta, not Add/Remove" }
}

/// The error for a body-heat tombstone sharing its tick with a set or a delta.
pub open spec fn heat_tombstone_conflict() -> ResolveError {
    ResolveError { reason: "body-heat tombstone conflicts with a set or delta on the same tick" }
}

/// What body heat has gathered after reading `cs` in order: the base (the committed
/// integer, replaced by a set), whether a set was seen, the saturating sum of the deltas, and
/// whether a tombstone was proposed; or the first conflict met.
pub open spec fn heat_scan(current: Option<Value>, cs: Seq<Change>) -> Result<
    (Option<i64>, bool, i64, bool),
    ResolveError,
>
    decreases cs.len(),
{
    if cs.len() == 0 {
        Ok(
            (
                match current {
                    Some(Value::Int(n)) => Some(n),
                    _ => None,
                },
                false,
                0i64,
                false,
            ),
        )
    } else {
        match heat_scan(current, cs.drop_last()) {
            Err(e) => Err(e),
            Ok((base, set_seen, sum, tomb)) => match cs.last() {
                Change::Create(v) | Change::Assign(v) => match v {
                    Value::Int(n) => if set_seen {
                        Err(heat_competing_sets())
                    } else {
                        Ok((Some(n), true, sum, tomb))
                    },
                    _ => Err(heat_needs_integer()),
                },
                Change::Delta(d) => Ok((base, set_seen, sat_add(sum, d), tomb)),
                Change::Tombstone => Ok((base, set_seen, sum, true)),
                Change::Add(_) | Change::Remove(_) => Err(heat_single_valued()),
            },
        }
    }
}

/// The outcome of body-heat composition: a tombstone stands alone; otherwise the deltas sum
/// onto the base (zero when nothing is committed), saturating.
pub open spec fn heat_outcome(current: Option<Value>, cs: Seq<Change>) -> Result<Resolved, ResolveError> {
    match heat_scan(current, cs) {
        Err(e) => Err(e),
        Ok((base, set_seen, sum, tomb)) => if tomb {
            if set_seen || sum != 0 {
                Err(heat_tombstone_conflict())
            } else {
                Ok(Resolved::Tombstone)
            }
        } else {
            Ok(
                Resolved::Write(
                    Value::Int(
                        sat_add(
                            match base {
                                Some(b) => b,
                                None => 0i64,
                            },
                            sum,
                        ),
                    ),
                ),
            )
        },
    }
}

/// One set establishes body heat whatever was committed: a lone `Assign` or `Create` of `n`
/// resolves to `n`, and a delta proposed beside it (in either order) adds to `n`, saturating;
/// with no set, a delta adds to the committed value.
pub proof fn law_one_set_establishes_body_heat(current: Option<Value>, n: i64, d: i64, c: i64)
    ensures
        heat_outcome(current, seq![Change::Assign(Value::Int(n))]) == Ok::<Resolved, ResolveError>(
            Resolved::Write(Value::Int(n)),
        ),
        heat_outcome(current, seq![Change::Create(Value::Int(n))]) == Ok::<Resolved, ResolveError>(
            Resolved::Write(Value::Int(n)),
        ),
        heat_outcome(current, seq![Change::Assign(Value::Int(n)), Change::Delta(d)]) == Ok::<
            Resolved,
            ResolveError,
        >(Resolved::Write(Value::Int(sat_add(n, d)))),
        heat_outcome(current, seq![Change::Delta(d), Change::Assign(Value::Int(n))]) == Ok::<
            Resolved,
            ResolveError,
        >(Resolved::Write(Value::Int(sat_add(n, d)))),
        heat_outcome(Some(Value::Int(c)), seq![Change::Delta(d)]) == Ok::<Resolved, ResolveError>(
            Resolved::Write(Value::Int(sat_add(c, d))),
        ),
{
    let one = seq![Change::Assign(Value::Int(n))];
    let made = seq![Change::Create(Value::Int(n))];
    let set_then = seq![Change::Assign(Value::Int(n)), Change::Delta(d)];
    let then_set = seq![Change::Delta(d), Change::Assign(Value::Int(n))];
    let delta = seq![Change::Delta(d)];
    assert(one.drop_last() =~= Seq::<Change>::empty());
    assert(made.drop_last() =~= Seq::<Change>::empty());
    assert(delta.drop_last() =~= Seq::<Change>::empty());
    assert(set_then.drop_last() =~= one);
    assert(then_set.drop_last() =~= delta);
    assert(sat_add(n, 0) == n);
    assert(sat_add(0, d) == d);
    assert(sat_add(c, 0) == c);
    assert(one.len() == 1 && one.last() == Change::Assign(Value::Int(n)));
    assert(made.len() == 1 && made.last() == Change::Create(Value::Int(n)));
    let base = heat_scan(current, Seq::<Change>::empty());
    assert(base is Ok);
    assert(heat_scan(current, one) == Ok::<(Option<i64>, bool, i64, bool), ResolveError>(
        (Some(n), true, 0i64, false),
    ));
    assert(heat_scan(current, made) == Ok::<(Option<i64>, bool, i64, bool), ResolveError>(
        (Some(n), true, 0i64, false),
    ));
    let b0 = match current {
        Some(Value::Int(m)) => Some(m),
        _ => None,
    };
    assert(delta.len() == 1 && delta.last() == Change::Delta(d));
    assert(heat_scan(current, delta) == Ok::<(Option<i64>, bool, i64, bool), ResolveError>(
        (b0, false, d, false),
    ));
    assert(heat_scan(Some(Value::Int(c)), Seq::<Change>::empty()) == Ok::<
        (Option<i64>, bool, i64, bool),
        ResolveError,
    >((Some(c), false, 0i64, false)));
    assert(heat_scan(Some(Value::Int(c)), delta) == Ok::<(Option<i64>, bool, i64, bool), ResolveError>(
        (Some(c), false, d, false),
    ));
    assert(then_set.len() == 2 && then_set.last() == Change::Assign(Value::Int(n)));
    assert(heat_scan(current, then_set) == Ok::<(Option<i64>, bool, i64, bool), ResolveError>(
        (Some(n), true, d, false),
    ));
    assert(set_then.len() == 2 && set_then.last() == Change::Delta(d));
    assert(heat_scan(current, set_then) == Ok::<(Option<i64>, bool, i64, bool), ResolveError>(
        (Some(n), true, d, false),
    ));
}

/// The saturating running sum of the deltas in `ds`, taken in order from `start`; a change
/// that is not a delta adds nothing.
pub open spec fn deltas_from(start: i64, ds: Seq<Change>) -> i64
    decreases ds.len(),
{
    if ds.len() == 0 {
        start
    } else {
        sat_add(
            deltas_from(start, ds.drop_last()),
            match ds.last() {
                Change::Delta(d) => d,
                _ => 0i64,
            },
        )
    }
}

/// Every change in `ds` is a delta.
pub open spec fn only_deltas(ds: Seq<Change>) -> bool {
    forall|i: int| 0 <= i < ds.len() ==> #[trigger] ds[i] is Delta
}

/// Reading further deltas leaves base, set and tombstone as they were and runs the sum on.
proof fn lemma_heat_scan_through_deltas(current: Option<Value>, pre: Seq<Change>, ds: Seq<Change>)
    requires
        only_deltas(ds),
    ensures
        match heat_scan(current, pre) {
            Ok((b, s, sum, t)) => heat_scan(current, pre + ds) == Ok::<
                (Option<i64>, bool, i64, bool),
                ResolveError,
            >((b, s, deltas_from(sum, ds), t)),
            Err(_) => true,
        },
    decreases ds.len(),
{
    if ds.len() == 0 {
        assert(pre + ds =~= pre);
    } else {
        let shorter = ds.drop_last();
        assert(only_deltas(shorter)) by {
            assert forall|i: int| 0 <= i < shorter.len() implies #[trigger] shorter[i] is Delta by {
                assert(shorter[i] == ds[i]);
            }
        }
        lemma_heat_scan_through_deltas(current, pre, shorter);
        assert((pre + ds).drop_last() =~= pre + shorter);
        assert((pre + ds).last() == ds.last());
        assert(ds[ds.len() - 1] is Delta);
    }
}

/// Running the sum over `a` and then over `b` is running it over `a + b`.
proof fn lemma_deltas_chain(start: i64, a: Seq<Change>, b: Seq<Change>)
    ensures
        deltas_from(deltas_from(start, a), b) == deltas_from(start, a + b),
    decreases b.len(),
{
    if b.len() == 0 {
        assert(a + b =~= a);
    } else {
        lemma_deltas_chain(start, a, b.drop_last());
        assert((a + b).drop_last() =~= a + b.drop_last());
        assert((a + b).last() == b.last());
    }
}

/// Body heat is the one set plus every delta proposed beside it: with any deltas before and
/// after a lone `Assign` or `Create` of `n`, the result is `n` plus the deltas' running sum,
/// saturating, whatever was committed. With deltas alone they sum onto the committed integer
/// (onto zero when none is committed).
pub proof fn law_body_heat_is_the_set_plus_its_deltas(
    current: Option<Value>,
    n: i64,
    before: Seq<Change>,
    after: Seq<Change>,
)
    requires
        only_deltas(before),
        only_deltas(after),
    ensures
        heat_outcome(current, before + seq![Change::Assign(Value::Int(n))] + after) == Ok::<
            Resolved,
            ResolveError,
        >(Resolved::Write(Value::Int(sat_add(n, deltas_from(0i64, before + after))))),
        heat_outcome(current, before + seq![Change::Create(Value::Int(n))] + after) == Ok::<
            Resolved,
            ResolveError,
        >(Resolved::Write(Value::Int(sat_add(n, deltas_from(0i64, before + after))))),
        heat_outcome(current, before) == Ok::<Resolved, ResolveError>(
            Resolved::Write(
                Value::Int(
                    sat_add(
                        match current {
                            Some(Value::Int(c)) => c,
                            _ => 0i64,
                        },
                        deltas_from(0i64, before),
                    ),
                ),
            ),
        ),
{
    let empty = Seq::<Change>::empty();
    assert(empty + before =~= before);
    lemma_heat_scan_through_deltas(current, empty, before);
    let b0 = match current {
        Some(Value::Int(c)) => Some(c),
        _ => None,
    };
    let s0 = deltas_from(0i64, before);
    assert(heat_scan(current, before) == Ok::<(Option<i64>, bool, i64, bool), ResolveError>(
        (b0, false, s0, false),
    ));
    lemma_deltas_chain(0i64, before, after);
    let set_a = Change::Assign(Value::Int(n));
    let set_c = Change::Create(Value::Int(n));
    let pa = before + seq![set_a];
    let pc = before + seq![set_c];
    assert(pa.drop_last() =~= before);
    assert(pc.drop_last() =~= before);
    assert(pa.last() == set_a);
    assert(pc.last() == set_c);
    assert(heat_scan(current, pa) == Ok::<(Option<i64>, bool, i64, bool), ResolveError>(
        (Some(n), true, s0, false),
    ));
    assert(heat_scan(current, pc) == Ok::<(Option<i64>, bool, i64, bool), ResolveError>(
        (Some(n), true, s0, false),
    ));
    lemma_heat_scan_through_deltas(current, pa, after);
    lemma_heat_scan_through_deltas(current, pc, after);
}

/// What body-heat composition refuses, and a lone tombstone: a tombstone alone ends the
/// fact; two sets compete and fail; a tombstone beside a set, or beside a nonzero delta,
/// conflicts.
pub proof fn law_body_heat_refusals(current: Option<Value>, n: i64, m: i64, d: i64)
    ensures
        heat_outcome(current, seq![Change::Tombstone]) == Ok::<Resolved, ResolveError>(
            Resolved::Tombstone,
        ),
        heat_outcome(current, seq![Change::Assign(Value::Int(n)), Change::Assign(Value::Int(m))])
            == Err::<Resolved, ResolveError>(heat_competing_sets()),
        heat_outcome(current, seq![Change::Tombstone, Change::Assign(Value::Int(n))]) == Err::<
            Resolved,
            ResolveError,
        >(heat_tombstone_conflict()),
        d != 0 ==> heat_outcome(current, seq![Change::Tombstone, Change::Delta(d)]) == Err::<
            Resolved,
            ResolveError,
        >(heat_tombstone_conflict()),
{
    let b0 = match current {
        Some(Value::Int(c)) => Some(c),
        _ => None,
    };
    let t = seq![Change::Tombstone];
    let two = seq![Change::Assign(Value::Int(n)), Change::Assign(Value::Int(m))];
    let ts = seq![Change::Tombstone, Change::Assign(Value::Int(n))];
    let td = seq![Change::Tombstone, Change::Delta(d)];
    let one = seq![Change::Assign(Value::Int(n))];
    assert(t.drop_last() =~= Seq::<Change>::empty());
    assert(one.drop_last() =~= Seq::<Change>::empty());
    assert(two.drop_last() =~= one);
    assert(ts.drop_last() =~= t);
    assert(td.drop_last() =~= t);
    assert(t.last() == Change::Tombstone);
    assert(one.last() == Change::Assign(Value::Int(n)));
    assert(two.last() == Change::Assign(Value::Int(m)));
    assert(ts.last() == Change::Assign(Value::Int(n)));
    assert(td.last() == Change::Delta(d));
    assert(heat_scan(current, Seq::<Change>::empty()) == Ok::<
        (Option<i64>, bool, i64, bool),
        ResolveError,
    >((b0, false, 0i64, false)));
    assert(t.len() == 1 && one.len() == 1);
    assert(heat_scan(current, t) == Ok::<(Option<i64>, bool, i64, bool), ResolveError>(
        (b0, false, 0i64, true),
    ));
    assert(heat_scan(current, one) == Ok::<(Option<i64>, bool, i64, bool), ResolveError>(
        (Some(n), true, 0i64, false),
    ));
    assert(sat_add(0i64, d) == d);
}

/// Once the scan has failed on a prefix, it stays failed with the same error.
proof fn lemma_heat_scan_stays_failed(current: Option<Value>, cs: Seq<Change>, n: int)
    requires
        0 <= n <= cs.len(),
        heat_scan(current, cs.take(n)) is Err,
    ensures
        heat_scan(current, cs) == heat_scan(current, cs.take(n)),
    decreases cs.len() - n,
{
    if n == cs.len() {
        assert(cs.take(n) =~= cs);
    } else {
        assert(cs.take(n + 1).drop_last() =~= cs.take(n));
        lemma_heat_scan_stays_failed(current, cs, n + 1);
    }
}

/// Compose proposals against body heat: at most one set or create establishes the base (two
/// competing sets fail), then all deltas sum onto it. A tombstone may not share the tick with
/// a set or delta. The base for an organism with no committed body heat is zero.
pub fn compose_body_heat(current: Option<Value>, changes: &[Change]) -> (r: Result<Resolved, ResolveError>)
    ensures
        r == heat_outcome(current, changes@),
{
    let mut base: Option<i64> = match current {
        Some(Value::Int(n)) => Some(n),
        _ => None,
    };
    let mut set_seen = false;
    let mut delta_sum: i64 = 0;
    let mut tombstone = false;
    let mut i: usize = 0;
    while i < changes.len()
        invariant
            i <= changes.len(),
            heat_scan(current, changes@.take(i as int)) == Ok::<
                (Option<i64>, bool, i64, bool),
                ResolveError,
            >((base, set_seen, delta_sum, tombstone)),
        decreases changes.len() - i,
    {
        assert(changes@.take(i + 1).drop_last() =~= changes@.take(i as int));
        assert(changes@.take(i + 1).last() == changes@[i as int]);
        match changes[i] {
            Change::Assign(v) | Change::Create(v) => {
                let n = match v {
                    Value::Int(n) => n,
                    _ => {
                        proof {
                            lemma_heat_scan_stays_failed(current, changes@, i as int + 1);
                        }
                        return Err(ResolveError::new("body heat must be an integer value"));
                    },
                };
                if set_seen {
                    proof {
                        lemma_heat_scan_stays_failed(current, changes@, i as int + 1);
                    }
                    return Err(
                        ResolveError::new("two competing body-heat sets with no declared tie-break"),
                    );
                }
                set_seen = true;
                base = Some(n);
            },
            Change::Delta(d) => {
                delta_sum = saturating_add(delta_sum, d);
            },
            Change::Tombstone => {
                tombstone = true;
            },
            Change::Add(_) | Change::Remove(_) => {
                proof {
                    lemma_heat_scan_stays_failed(current, changes@, i as int + 1);
                }
                return Err(
                    ResolveError::new(
                        "body heat is single-valued; use Set/Create/Delta, not Add/Remove",
                    ),
                );
            },
        }
        i = i + 1;
    }
    assert(changes@.take(i as int) =~= changes@);
    if tombstone {
        if set_seen || delta_sum != 0 {
            return Err(
                ResolveError::new("body-heat tombstone conflicts with a set or delta on the same tick"),
            );
        }
        return Ok(Resolved::Tombstone);
    }
    let start = match base {
        Some(b) => b,
        None => 0,
    };
    Ok(Resolved::Write(Value::Int(saturating_add(start, delta_sum))))
}

} // verus!
