//! Proposal composition for Physical Reality-owned fact types.
//!
//! Composition rules decide how competing proposals against an owned fact reconcile before
//! commit (the Resolve stage). Scalar fields sum their deltas; percentage fields sum then
//! clamp to their range; references take exactly one named entity. Every tunable threshold
//! lives in the world package, never here.

use crate::kernel::domain::{ResolveError, Resolved};
use crate::kernel::proposal::Change;
use crate::kernel::value::Value;
use crate::arith::{clamp, clamp_spec, sat_add, saturating_add};
use vstd::prelude::*;

verus! {

/// The integer inside a value, if it holds one.
pub open spec fn int_of(v: Option<Value>) -> Option<i64> {
    match v {
        Some(Value::Int(n)) => Some(n),
        _ => None,
    }
}

/// The error for a set or create that does not carry an integer.
pub open spec fn needs_integer() -> ResolveError {
    ResolveError { reason: "this fact requires an integer value" }
}

/// The error for two competing sets on one tick.
pub open spec fn competing_sets() -> ResolveError {
    ResolveError { reason: "two competing sets with no declared tie-break" }
}

/// The error for a set change proposed against a single-valued fact.
pub open spec fn single_valued() -> ResolveError {
    ResolveError { reason: "this fact is single-valued; use Set/Create/Delta, not Add/Remove" }
}

/// The error for a tombstone sharing its tick with a set or a delta.
pub open spec fn tombstone_conflict() -> ResolveError {
    ResolveError { reason: "tombstone conflicts with a set or delta on the same tick" }
}

/// What an additive fact has gathered after reading `cs` in order: the base (the committed
/// integer, replaced by a set), whether a set was seen, the saturating sum of the deltas, and
/// whether a tombstone was proposed; or the first conflict met.
pub open spec fn additive_scan(current: Option<Value>, cs: Seq<Change>) -> Result<
    (Option<i64>, bool, i64, bool),
    ResolveError,
>
    decreases cs.len(),
{
    if cs.len() == 0 {
        Ok((int_of(current), false, 0i64, false))
    } else {
        match additive_scan(current, cs.drop_last()) {
            Err(e) => Err(e),
            Ok((base, set_seen, sum, tomb)) => match cs.last() {
                Change::Create(v) | Change::Assign(v) => match v {
                    Value::Int(n) => if set_seen {
                        Err(competing_sets())
                    } else {
                        Ok((Some(n), true, sum, tomb))
                    },
                    _ => Err(needs_integer()),
                },
                Change::Delta(d) => Ok((base, set_seen, sat_add(sum, d), tomb)),
                Change::Tombstone => Ok((base, set_seen, sum, true)),
                Change::Add(_) | Change::Remove(_) => Err(single_valued()),
            },
        }
    }
}

/// The outcome of additive composition: a tombstone stands alone; otherwise the deltas sum
/// onto the base (zero when nothing is committed), saturating.
pub open spec fn additive_outcome(current: Option<Value>, cs: Seq<Change>) -> Result<Resolved, ResolveError> {
    match additive_scan(current, cs) {
        Err(e) => Err(e),
        Ok((base, set_seen, sum, tomb)) => if tomb {
            if set_seen || sum != 0 {
                Err(tombstone_conflict())
            } else {
                Ok(Resolved::Tombstone)
            }
        } else {
            Ok(
                Resolved::Write(
                    Value::Int(
                        sat_add(
                            match base {
                                Some(b) => b,
                                None => 0i64,
                            },
                            sum,
                        ),
                    ),
                ),
            )
        },
    }
}

/// Sum deltas onto the current value: at most one set or create establishes the base (two
/// competing sets are an undeclared conflict and fail), then all deltas sum onto it. A
/// tombstone may not share the tick with a set or delta. The base for a fact with no
/// committed value is zero. Used by temperature and elevation.
pub fn compose_additive(current: Option<Value>, changes: &[Change]) -> (r: Result<Resolved, ResolveError>)
    ensures
        r == additive_outcome(current, changes@),
{
    let mut base: Option<i64> = match current {
        Some(Value::Int(n)) => Some(n),
        _ => None,
    };
    let mut set_seen = false;
    let mut delta_sum: i64 = 0;
    let mut tombstone = false;
    let mut i: usize = 0;
    while i < changes.len()
        invariant
            i <= changes.len(),
            additive_scan(current, changes@.take(i as int)) == Ok::<
                (Option<i64>, bool, i64, bool),
                ResolveError,
            >((base, set_seen, delta_sum, tombstone)),
        decreases changes.len() - i,
    {
        assert(changes@.take(i + 1).drop_last() =~= changes@.take(i as int));
        assert(changes@.take(i + 1).last() == changes@[i as int]);
        match changes[i] {
            Change::Assign(v) | Change::Create(v) => {
                let n = match v {
                    Value::Int(n) => n,
                    _ => {
                        proof {
                            lemma_additive_scan_stays_failed(current, changes@, i as int + 1);
                        }
                        return Err(ResolveError::new("this fact requires an integer value"));
                    },
                };
                if set_seen {
                    proof {
                        lemma_additive_scan_stays_failed(current, changes@, i as int + 1);
                    }
                    return Err(ResolveError::new("two competing sets with no declared tie-break"));
                }
                set_seen = true;
                base = Some(n);
            },
            Change::Delta(d) => {
                delta_sum = saturating_add(delta_sum, d);
            },
            Change::Tombstone => {
                tombstone = true;
            },
            Change::Add(_) | Change::Remove(_) => {
                proof {
                    lemma_additive_scan_stays_failed(current, changes@, i as int + 1);
                }
                return Err(
                    ResolveError::new(
                        "this fact is single-valued; use Set/Create/Delta, not Add/Remove",
                    ),
                );
            },
        }
        i = i + 1;
    }
    assert(changes@.take(i as int) =~= changes@);
    if tombstone {
        if set_seen || delta_sum != 0 {
            return Err(ResolveError::new("tombstone conflicts with a set or delta on the same tick"));
        }
        return Ok(Resolved::Tombstone);
    }
    let start = match base {
        Some(b) => b,
        None => 0,
    };
    Ok(Resolved::Write(Value::Int(saturating_add(start, delta_sum))))
}

/// Once the additive scan has failed on a prefix, it stays failed with the same error.
proof fn lemma_additive_scan_stays_failed(current: Option<Value>, cs: Seq<Change>, n: int)
    requires
        0 <= n <= cs.len(),
        additive_scan(current, cs.take(n)) is Err,
    ensures
        additive_scan(current, cs) == additive_scan(current, cs.take(n)),
    decreases cs.len() - n,
{
    if n == cs.len() {
        assert(cs.take(n) =~= cs);
    } else {
        assert(cs.take(n + 1).drop_last() =~= cs.take(n));
        lemma_additive_scan_stays_failed(current, cs, n + 1);
    }
}

/// Additive facts: one set establishes the value whatever was committed, and a delta beside
/// it (in either order) adds to it; with no set, deltas add onto the committed value (zero
/// when nothing is committed), in any order, saturating.
pub proof fn law_additive_sets_then_sums(current: Option<Value>, n: i64, a: i64, b: i64, c: i64)
    ensures
        additive_outcome(current, seq![Change::Assign(Value::Int(n))]) == Ok::<Resolved, ResolveError>(
            Resolved::Write(Value::Int(n)),
        ),
        additive_outcome(current, seq![Change::Create(Value::Int(n))]) == Ok::<Resolved, ResolveError>(
            Resolved::Write(Value::Int(n)),
        ),
        additive_outcome(current, seq![Change::Assign(Value::Int(n)), Change::Delta(a)]) == Ok::<
            Resolved,
            ResolveError,
        >(Resolved::Write(Value::Int(sat_add(n, a)))),
        additive_outcome(current, seq![Change::Delta(a), Change::Assign(Value::Int(n))]) == Ok::<
            Resolved,
            ResolveError,
        >(Resolved::Write(Value::Int(sat_add(n, a)))),
        additive_outcome(Some(Value::Int(c)), seq![Change::Delta(a)]) == Ok::<Resolved, ResolveError>(
            Resolved::Write(Value::Int(sat_add(c, a))),
        ),
        additive_outcome(None, seq![Change::Delta(a)]) == Ok::<Resolved, ResolveError>(
            Resolved::Write(Value::Int(a)),
        ),
        additive_outcome(current, seq![Change::Delta(a), Change::Delta(b)]) == additive_outcome(
            current,
            seq![Change::Delta(b), Change::Delta(a)],
        ),
{
    let e = Seq::<Change>::empty();
    let one = seq![Change::Assign(Value::Int(n))];
    let made = seq![Change::Create(Value::Int(n))];
    let da = seq![Change::Delta(a)];
    let db = seq![Change::Delta(b)];
    let set_then = seq![Change::Assign(Value::Int(n)), Change::Delta(a)];
    let then_set = seq![Change::Delta(a), Change::Assign(Value::Int(n))];
    let ab = seq![Change::Delta(a), Change::Delta(b)];
    let ba = seq![Change::Delta(b), Change::Delta(a)];
    assert(one.drop_last() =~= e && made.drop_last() =~= e && da.drop_last() =~= e && db.drop_last() =~= e);
    assert(set_then.drop_last() =~= one && then_set.drop_last() =~= da);
    assert(ab.drop_last() =~= da && ba.drop_last() =~= db);
    assert(one.last() == Change::Assign(Value::Int(n)) && made.last() == Change::Create(Value::Int(n)));
    assert(da.last() == Change::Delta(a) && db.last() == Change::Delta(b));
    assert(set_then.last() == Change::Delta(a) && then_set.last() == Change::Assign(Value::Int(n)));
    assert(ab.last() == Change::Delta(b) && ba.last() == Change::Delta(a));
    let b0 = int_of(current);
    assert(additive_scan(current, e) == Ok::<(Option<i64>, bool, i64, bool), ResolveError>((b0, false, 0i64, false)));
    assert(additive_scan(current, one) == Ok::<(Option<i64>, bool, i64, bool), ResolveError>(
        (Some(n), true, 0i64, false),
    ));
    assert(additive_scan(current, made) == Ok::<(Option<i64>, bool, i64, bool), ResolveError>(
        (Some(n), true, 0i64, false),
    ));
    assert(sat_add(0, a) == a && sat_add(0, b) == b && sat_add(n, 0) == n);
    assert(additive_scan(current, da) == Ok::<(Option<i64>, bool, i64, bool), ResolveError>((b0, false, a, false)));
    assert(additive_scan(current, db) == Ok::<(Option<i64>, bool, i64, bool), ResolveError>((b0, false, b, false)));
    assert(additive_scan(Some(Value::Int(c)), e) == Ok::<(Option<i64>, bool, i64, bool), ResolveError>(
        (Some(c), false, 0i64, false),
    ));
    assert(additive_scan(Some(Value::Int(c)), da) == Ok::<(Option<i64>, bool, i64, bool), ResolveError>(
        (Some(c), false, a, false),
    ));
    assert(additive_scan(None, e) == Ok::<(Option<i64>, bool, i64, bool), ResolveError>((None, false, 0i64, false)));
    assert(additive_scan(None, da) == Ok::<(Option<i64>, bool, i64, bool), ResolveError>((None, false, a, false)));
    assert(additive_scan(current, set_then) == Ok::<(Option<i64>, bool, i64, bool), ResolveError>(
        (Some(n), true, a, false),
    ));
    assert(additive_scan(current, then_set) == Ok::<(Option<i64>, bool, i64, bool), ResolveError>(
        (Some(n), true, a, false),
    ));
    assert(sat_add(a, b) == sat_add(b, a));
    assert(additive_scan(current, ab) == Ok::<(Option<i64>, bool, i64, bool), ResolveError>(
        (b0, false, sat_add(a, b), false),
    ));
    assert(additive_scan(current, ba) == Ok::<(Option<i64>, bool, i64, bool), ResolveError>(
        (b0, false, sat_add(b, a), false),
    ));
}

/// The outcome of bounded composition: additive composition, with a written integer clamped
/// into `[lo, hi]`.
pub open spec fn bounded_outcome(current: Option<Value>, cs: Seq<Change>, lo: i64, hi: i64) -> Result<
    Resolved,
    ResolveError,
> {
    match additive_outcome(current, cs) {
        Ok(Resolved::Write(Value::Int(n))) => Ok(Resolved::Write(Value::Int(clamp_spec(n, lo, hi)))),
        other => other,
    }
}

/// Sum deltas as [`compose_additive`], then clamp the result into `[min, max]`. Used by the
/// percentage fields (illumination, humidity), so a random walk of weather deltas can never
/// drive them out of range and abort a tick. Tombstones pass through unclamped.
pub fn compose_bounded(current: Option<Value>, changes: &[Change], min: i64, max: i64) -> (r: Result<
    Resolved,
    ResolveError,
>)
    requires
        min <= max,
    ensures
        r == bounded_outcome(current, changes@, min, max),
        r matches Ok(Resolved::Write(Value::Int(n))) ==> min <= n <= max,
{
    match compose_additive(current, changes) {
        Ok(Resolved::Write(Value::Int(n))) => Ok(Resolved::Write(Value::Int(clamp(n, min, max)))),
        other => other,
    }
}

/// The error for a reference set to something other than an entity.
pub open spec fn must_reference_entity() -> ResolveError {
    ResolveError { reason: "this fact must reference an entity" }
}

/// The error for two competing references on one tick.
pub open spec fn competing_references() -> ResolveError {
    ResolveError { reason: "two competing entity references with no declared tie-break" }
}

/// The error for a numeric delta proposed against a reference.
pub open spec fn reference_delta() -> ResolveError {
    ResolveError { reason: "an entity-reference fact cannot take a numeric delta" }
}

/// The error for a set change proposed against a reference.
pub open spec fn reference_single_valued() -> ResolveError {
    ResolveError {
        reason: "an entity-reference fact is single-valued; use Set/Create, not Add/Remove",
    }
}

/// The error for a reference tombstone sharing its tick with a set.
pub open spec fn reference_tombstone_conflict() -> ResolveError {
    ResolveError { reason: "an entity-reference tombstone conflicts with a set on the same tick" }
}

/// The error for a reference left with no value at all.
pub open spec fn reference_missing() -> ResolveError {
    ResolveError { reason: "entity-reference fact resolved with no value" }
}

/// What a reference has gathered after reading `cs` in order: the referenced value (the
/// committed one, replaced by a set), whether a set was seen, and whether a tombstone was
/// proposed; or the first conflict met.
pub open spec fn reference_scan(current: Option<Value>, cs: Seq<Change>) -> Result<
    (Option<Value>, bool, bool),
    ResolveError,
>
    decreases cs.len(),
{
    if cs.len() == 0 {
        Ok((current, false, false))
    } else {
        match reference_scan(current, cs.drop_last()) {
            Err(e) => Err(e),
            Ok((held, set_seen, tomb)) => match cs.last() {
                Change::Create(v) | Change::Assign(v) => if !(v is Entity) {
                    Err(must_reference_entity())
                } else if set_seen {
                    Err(competing_references())
                } else {
                    Ok((Some(v), true, tomb))
                },
                Change::Delta(_) => Err(reference_delta()),
                Change::Add(_) | Change::Remove(_) => Err(reference_single_valued()),
                Change::Tombstone => Ok((held, set_seen, true)),
            },
        }
    }
}

/// The outcome of reference composition: a tombstone stands alone; otherwise the held value
/// is written, and a reference with no value at all fails.
pub open spec fn reference_outcome(current: Option<Value>, cs: Seq<Change>) -> Result<Resolved, ResolveError> {
    match reference_scan(current, cs) {
        Err(e) => Err(e),
        Ok((held, set_seen, tomb)) => if tomb {
            if set_seen {
                Err(reference_tombstone_conflict())
            } else {
                Ok(Resolved::Tombstone)
            }
        } else {
            match held {
                Some(v) => Ok(Resolved::Write(v)),
                None => Err(reference_missing()),
            }
        },
    }
}

/// Entity references: a lone set of an entity writes that entity whatever was held; with no
/// change the held reference stands; a delta on a reference is refused; and a reference with
/// nothing committed and nothing set is missing.
pub proof fn law_reference_takes_the_set(current: Option<Value>, x: Value, d: i64, held: Value)
    requires
        x is Entity,
    ensures
        reference_outcome(current, seq![Change::Assign(x)]) == Ok::<Resolved, ResolveError>(
            Resolved::Write(x),
        ),
        reference_outcome(current, seq![Change::Create(x)]) == Ok::<Resolved, ResolveError>(
            Resolved::Write(x),
        ),
        reference_outcome(Some(held), Seq::<Change>::empty()) == Ok::<Resolved, ResolveError>(
            Resolved::Write(held),
        ),
        reference_outcome(None, Seq::<Change>::empty()) == Err::<Resolved, ResolveError>(
            reference_missing(),
        ),
        reference_outcome(current, seq![Change::Delta(d)]) == Err::<Resolved, ResolveError>(
            reference_delta(),
        ),
{
    let e = Seq::<Change>::empty();
    let one = seq![Change::Assign(x)];
    let made = seq![Change::Create(x)];
    let dd = seq![Change::Delta(d)];
    assert(one.drop_last() =~= e && made.drop_last() =~= e && dd.drop_last() =~= e);
    assert(one.last() == Change::Assign(x) && made.last() == Change::Create(x) && dd.last() == Change::Delta(d));
    assert(reference_scan(current, e) == Ok::<(Option<Value>, bool, bool), ResolveError>((current, false, false)));
    assert(reference_scan(current, one) == Ok::<(Option<Value>, bool, bool), ResolveError>((Some(x), true, false)));
    assert(reference_scan(current, made) == Ok::<(Option<Value>, bool, bool), ResolveError>((Some(x), true, false)));
    assert(reference_scan(current, dd) == Err::<(Option<Value>, bool, bool), ResolveError>(reference_delta()));
}

/// Once the reference scan has failed on a prefix, it stays failed with the same error.
proof fn lemma_reference_scan_stays_failed(current: Option<Value>, cs: Seq<Change>, n: int)
    requires
        0 <= n <= cs.len(),
        reference_scan(current, cs.take(n)) is Err,
    ensures
        reference_scan(current, cs) == reference_scan(current, cs.take(n)),
    decreases cs.len() - n,
{
    if n == cs.len() {
        assert(cs.take(n) =~= cs);
    } else {
        assert(cs.take(n + 1).drop_last() =~= cs.take(n));
        lemma_reference_scan_stays_failed(current, cs, n + 1);
    }
}

/// Resolve a single entity-reference fact: a set or create names the referenced entity; two
/// competing references with no declared tie-break fail; a tombstone clears it. Such a fact
/// takes no numeric delta and no set change. Used by containment (an entity's container),
/// the downwind region, and a portal's destination.
pub fn compose_entity_ref(current: Option<Value>, changes: &[Change]) -> (r: Result<Resolved, ResolveError>)
    ensures
        r == reference_outcome(current, changes@),
{
    let mut held: Option<Value> = current;
    let mut set_seen = false;
    let mut tombstone = false;
    let mut i: usize = 0;
    while i < changes.len()
        invariant
            i <= changes.len(),
            reference_scan(current, changes@.take(i as int)) == Ok::<
                (Option<Value>, bool, bool),
                ResolveError,
            >((held, set_seen, tombstone)),
        decreases changes.len() - i,
    {
        assert(changes@.take(i + 1).drop_last() =~= changes@.take(i as int));
        assert(changes@.take(i + 1).last() == changes@[i as int]);
        match changes[i] {
            Change::Assign(v) | Change::Create(v) => {
                let is_entity = match v {
                    Value::Entity(_) => true,
                    _ => false,
                };
                if !is_entity {
                    proof {
                        lemma_reference_scan_stays_failed(current, changes@, i as int + 1);
                    }
                    return Err(ResolveError::new("this fact must reference an entity"));
                }
                if set_seen {
                    proof {
                        lemma_reference_scan_stays_failed(current, changes@, i as int + 1);
                    }
                    return Err(
                        ResolveError::new(
                            "two competing entity references with no declared tie-break",
                        ),
                    );
                }
                set_seen = true;
                held = Some(v);
            },
            Change::Delta(_) => {
                proof {
                    lemma_reference_scan_stays_failed(current, changes@, i as int + 1);
                }
                return Err(ResolveError::new("an entity-reference fact cannot take a numeric delta"));
            },
            Change::Add(_) | Change::Remove(_) => {
                proof {
                    lemma_reference_scan_stays_failed(current, changes@, i as int + 1);
                }
                return Err(
                    ResolveError::new(
                        "an entity-reference fact is single-valued; use Set/Create, not Add/Remove",
                    ),
                );
            },
            Change::Tombstone => {
                tombstone = true;
            },
        }
        i = i + 1;
    }
    assert(changes@.take(i as int) =~= changes@);
    if tombstone {
        if set_seen {
            return Err(
                ResolveError::new("an entity-reference tombstone conflicts with a set on the same tick"),
            );
        }
        return Ok(Resolved::Tombstone);
    }
    match held {
        Some(v) => Ok(Resolved::Write(v)),
        None => Err(ResolveError::new("entity-reference fact resolved with no value")),
    }
}

} // verus!
