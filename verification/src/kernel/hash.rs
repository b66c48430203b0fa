//! Canonical per-tick state hashing: identical committed reality yields an identical digest
//! regardless of the order facts are visited.
//!
//! [`StateHasher`] folds each fact's canonical byte encoding into two order-independent
//! 128-bit accumulators (a wrapping sum and an XOR of a mixed derivative) plus a count.
//! Both operations commute and are invertible, so the digest does not depend on insertion
//! order and a fact can be removed again, letting a store keep the digest incrementally.

use crate::kernel::rng::mix_spec;
use vstd::prelude::*;

verus! {

/// FNV-1a 128-bit offset basis.
pub open spec fn fnv128_offset() -> u128 {
    0x6c62_272e_07bb_0142_62b8_2175_6295_c58du128
}

/// FNV-1a 128-bit prime.
pub open spec fn fnv128_prime() -> u128 {
    0x0000_0000_0100_0000_0000_0000_0000_013bu128
}

/// FNV-1a 128 over a byte string: the per-fact digest.
pub open spec fn fnv128(bytes: Seq<u8>) -> u128
    decreases bytes.len(),
{
    if bytes.len() == 0 {
        fnv128_offset()
    } else {
        vstd::wrapping::u128_specs::wrapping_mul(
            fnv128(bytes.drop_last()) ^ (bytes.last() as u128),
            fnv128_prime(),
        )
    }
}

/// SplitMix64 with its increment: the strengthening pass for the XOR accumulator.
pub open spec fn splitmix64(z: u64) -> u64 {
    mix_spec(vstd::wrapping::u64_specs::wrapping_add(z, 0x9E37_79B9_7F4A_7C15u64))
}

/// Mix a 128-bit per-fact digest lane-wise, so the two accumulators never cancel.
pub open spec fn mix128(h: u128) -> u128 {
    ((splitmix64((h >> 64u128) as u64) as u128) << 64u128) | (splitmix64(h as u64) as u128)
}

/// The odd constant spreading the fact count over the sum accumulator at finalisation.
pub open spec fn count_spread() -> u128 {
    0x9e37_79b9_7f4a_7c15_f39c_c060_5ced_c835u128
}

/// The accumulator state of a hasher: (wrapping sum, XOR, count).
pub type Accumulator = (u128, u128, u64);

/// The accumulator of a hasher that has seen nothing.
pub open spec fn empty_accumulator() -> Accumulator {
    (0u128, 0u128, 0u64)
}

/// Fold one per-fact digest into an accumulator.
pub open spec fn absorb(a: Accumulator, d: u128) -> Accumulator {
    (
        vstd::wrapping::u128_specs::wrapping_add(a.0, d),
        a.1 ^ mix128(d),
        vstd::wrapping::u64_specs::wrapping_add(a.2, 1u64),
    )
}

/// Take one per-fact digest back out of an accumulator.
pub open spec fn release(a: Accumulator, d: u128) -> Accumulator {
    (
        vstd::wrapping::u128_specs::wrapping_sub(a.0, d),
        a.1 ^ mix128(d),
        vstd::wrapping::u64_specs::wrapping_sub(a.2, 1u64),
    )
}

/// Fold a sequence of per-fact digests into an accumulator, left to right.
pub open spec fn absorb_all(a: Accumulator, ds: Seq<u128>) -> Accumulator
    decreases ds.len(),
{
    if ds.len() == 0 {
        a
    } else {
        absorb(absorb_all(a, ds.drop_last()), ds.last())
    }
}

/// The little-endian bytes of a 128-bit word.
pub open spec fn le_bytes_u128(x: u128) -> Seq<u8> {
    Seq::new(16, |k: int| ((x >> (8 * k) as u128) & 0xffu128) as u8)
}

/// The 32 digest bytes an accumulator finalises to.
pub open spec fn finish_bytes(a: Accumulator) -> Seq<u8> {
    le_bytes_u128(
        vstd::wrapping::u128_specs::wrapping_add(
            a.0,
            vstd::wrapping::u128_specs::wrapping_mul(a.2 as u128, count_spread()),
        ),
    ) + le_bytes_u128(a.1)
}

/// A canonical, order-independent digest of committed reality at a single tick.
#[derive(Clone, Copy, PartialEq, Eq, Hash, Debug)]
pub struct StateHash(pub [u8; 32]);

impl StateHash {
    /// The digest of an empty world: all zero bytes (what an empty hasher finishes to).
    pub fn empty() -> (h: StateHash)
        ensures
            h.0@ == Seq::new(32, |i: int| 0u8),
    {
        let h = StateHash([0u8; 32]);
        assert(h.0@ =~= Seq::new(32, |i: int| 0u8));
        h
    }

    /// Construct a [`StateHash`] from a raw 32-byte digest.
    pub fn from_bytes(bytes: [u8; 32]) -> (h: StateHash)
        ensures
            h.0 == bytes,
    {
        StateHash(bytes)
    }

    /// Borrow the raw digest bytes.
    pub fn as_bytes(&self) -> (r: &[u8; 32])
        ensures
            *r == self.0,
    {
        &self.0
    }
}

/// Accumulates committed facts into a canonical, order-independent [`StateHash`].
#[derive(Clone, Debug, Default)]
pub struct StateHasher {
    sum: u128,
    xor: u128,
    count: u64,
}

impl View for StateHasher {
    type V = Accumulator;

    closed spec fn view(&self) -> Accumulator {
        (self.sum, self.xor, self.count)
    }
}

/// FNV-1a 128 over `bytes`.
pub fn fnv1a_128(bytes: &[u8]) -> (h: u128)
    ensures
        h == fnv128(bytes@),
{
    let mut hash: u128 = 0x6c62_272e_07bb_0142_62b8_2175_6295_c58d;
    let mut i: usize = 0;
    while i < bytes.len()
        invariant
            i <= bytes@.len(),
            hash == fnv128(bytes@.take(i as int)),
        decreases bytes.len() - i,
    {
        assert(bytes@.take(i + 1).drop_last() =~= bytes@.take(i as int));
        hash = (hash ^ (bytes[i] as u128)).wrapping_mul(0x0000_0000_0100_0000_0000_0000_0000_013b);
        i = i + 1;
    }
    assert(bytes@.take(i as int) =~= bytes@);
    hash
}

/// SplitMix64 with its increment.
fn splitmix(z: u64) -> (r: u64)
    ensures
        r == splitmix64(z),
{
    crate::kernel::rng::mix(z.wrapping_add(0x9E37_79B9_7F4A_7C15))
}

/// Mix a 128-bit digest lane-wise.
fn mix_lanes(h: u128) -> (r: u128)
    ensures
        r == mix128(h),
{
    let lo = splitmix(#[verifier::truncate] (h as u64));
    let hi = splitmix(#[verifier::truncate] ((h >> 64) as u64));
    ((hi as u128) << 64) | (lo as u128)
}

/// The little-endian byte `k` of a 128-bit word.
fn wide_byte(x: u128, k: u128) -> (b: u8)
    requires
        k < 16,
    ensures
        b == ((x >> (8 * k)) & 0xffu128) as u8,
{
    ((x >> (8 * k)) & 0xff) as u8
}

impl StateHasher {
    /// Create an empty hasher whose digest is [`StateHash::empty`].
    pub fn new() -> (h: StateHasher)
        ensures
            h@ == empty_accumulator(),
    {
        StateHasher { sum: 0, xor: 0, count: 0 }
    }

    /// Fold one committed fact, given its canonical byte encoding.
    pub fn add_fact(&mut self, bytes: &[u8])
        ensures
            final(self)@ == absorb(old(self)@, fnv128(bytes@)),
    {
        let h = fnv1a_128(bytes);
        self.sum = self.sum.wrapping_add(h);
        self.xor = self.xor ^ mix_lanes(h);
        self.count = self.count.wrapping_add(1);
    }

    /// Remove one previously-added fact, given the same canonical byte encoding: the exact
    /// inverse of [`StateHasher::add_fact`].
    pub fn remove_fact(&mut self, bytes: &[u8])
        ensures
            final(self)@ == release(old(self)@, fnv128(bytes@)),
    {
        let h = fnv1a_128(bytes);
        self.sum = self.sum.wrapping_sub(h);
        self.xor = self.xor ^ mix_lanes(h);
        self.count = self.count.wrapping_sub(1);
    }

    /// Finalise the accumulators into a canonical [`StateHash`]: the count-strengthened sum
    /// then the XOR accumulator, each as 16 little-endian bytes.
    pub fn finish(&self) -> (r: StateHash)
        ensures
            r.0@ == finish_bytes(self@),
    {
        let sum = self.sum.wrapping_add((self.count as u128).wrapping_mul(
            0x9e37_79b9_7f4a_7c15_f39c_c060_5ced_c835,
        ));
        let x = self.xor;
        let out: [u8; 32] = [
            wide_byte(sum, 0),
            wide_byte(sum, 1),
            wide_byte(sum, 2),
            wide_byte(sum, 3),
            wide_byte(sum, 4),
            wide_byte(sum, 5),
            wide_byte(sum, 6),
            wide_byte(sum, 7),
            wide_byte(sum, 8),
            wide_byte(sum, 9),
            wide_byte(sum, 10),
            wide_byte(sum, 11),
            wide_byte(sum, 12),
            wide_byte(sum, 13),
            wide_byte(sum, 14),
            wide_byte(sum, 15),
            wide_byte(x, 0),
            wide_byte(x, 1),
            wide_byte(x, 2),
            wide_byte(x, 3),
            wide_byte(x, 4),
            wide_byte(x, 5),
            wide_byte(x, 6),
            wide_byte(x, 7),
            wide_byte(x, 8),
            wide_byte(x, 9),
            wide_byte(x, 10),
            wide_byte(x, 11),
            wide_byte(x, 12),
            wide_byte(x, 13),
            wide_byte(x, 14),
            wide_byte(x, 15),
        ];
        assert(out@ =~= finish_bytes(self@));
        StateHash(out)
    }
}

/// An empty hasher finalises to the all-zero digest [`StateHash::empty`].
pub proof fn lemma_empty_digest_is_zero()
    ensures
        finish_bytes(empty_accumulator()) == Seq::new(32, |i: int| 0u8),
{
    assert forall|k: int| 0 <= k < 16 implies #[trigger] le_bytes_u128(0u128)[k] == 0u8 by {
        let s: u128 = (8 * k) as u128;
        assert(((0u128 >> s) & 0xffu128) == 0u128) by (bit_vector);
    }
    assert(vstd::wrapping::u128_specs::wrapping_add(
        0u128,
        vstd::wrapping::u128_specs::wrapping_mul(0u64 as u128, count_spread()),
    ) == 0u128);
    assert(finish_bytes(empty_accumulator()) =~= Seq::new(32, |i: int| 0u8));
}

/// Absorbing two digests gives the same accumulator in either order: the digest does not
/// depend on the order facts are added.
pub proof fn lemma_absorb_commutes(a: Accumulator, d1: u128, d2: u128)
    ensures
        absorb(absorb(a, d1), d2) == absorb(absorb(a, d2), d1),
{
    let m1 = mix128(d1);
    let m2 = mix128(d2);
    let x = a.1;
    assert((x ^ m1) ^ m2 == (x ^ m2) ^ m1) by (bit_vector);
}

/// Releasing a digest exactly undoes absorbing it.
pub proof fn lemma_release_inverts_absorb(a: Accumulator, d: u128)
    ensures
        release(absorb(a, d), d) == a,
        absorb(release(a, d), d) == a,
{
    let m = mix128(d);
    let x = a.1;
    assert((x ^ m) ^ m == x) by (bit_vector);
}

/// Absorbing a digest into the middle of a sequence is the same as absorbing it last.
pub proof fn lemma_absorb_all_insert(a: Accumulator, ds: Seq<u128>, i: int, d: u128)
    requires
        0 <= i <= ds.len(),
    ensures
        absorb_all(a, ds.insert(i, d)) == absorb(absorb_all(a, ds), d),
    decreases ds.len(),
{
    if i == ds.len() {
        assert(ds.insert(i, d).drop_last() =~= ds);
    } else {
        let rest = ds.drop_last();
        lemma_absorb_all_insert(a, rest, i, d);
        assert(ds.insert(i, d).drop_last() =~= rest.insert(i, d));
        assert(ds.insert(i, d).last() == ds.last());
        lemma_absorb_commutes(absorb_all(a, rest), d, ds.last());
    }
}

/// Removing a digest from anywhere in a sequence releases it from the accumulator.
pub proof fn lemma_absorb_all_remove(a: Accumulator, ds: Seq<u128>, i: int)
    requires
        0 <= i < ds.len(),
    ensures
        absorb_all(a, ds.remove(i)) == release(absorb_all(a, ds), ds[i]),
{
    let d = ds[i];
    let rest = ds.remove(i);
    assert(rest.insert(i, d) =~= ds);
    lemma_absorb_all_insert(a, rest, i, d);
    lemma_release_inverts_absorb(absorb_all(a, rest), d);
}

/// The digest does not depend on the order facts are added: folding any rearrangement of
/// the same facts' encodings gives the same accumulator.
pub proof fn law_digest_ignores_order(h: Accumulator, fs: Seq<Seq<u8>>, gs: Seq<Seq<u8>>)
    requires
        fs.to_multiset() == gs.to_multiset(),
    ensures
        absorb_all(h, fs.map_values(|b: Seq<u8>| fnv128(b))) == absorb_all(
            h,
            gs.map_values(|b: Seq<u8>| fnv128(b)),
        ),
    decreases fs.len(),
{
    broadcast use vstd::seq_lib::group_to_multiset_ensures;

    if fs.len() == 0 {
        assert(gs.len() == gs.to_multiset().len());
        assert(gs.map_values(|b: Seq<u8>| fnv128(b)) =~= Seq::<u128>::empty());
        assert(fs.map_values(|b: Seq<u8>| fnv128(b)) =~= Seq::<u128>::empty());
    } else {
        let x = fs.last();
        let rest = fs.drop_last();
        assert(fs =~= rest.push(x));
        assert(fs.to_multiset() =~= rest.to_multiset().insert(x));
        assert(gs.to_multiset().count(x) > 0);
        assert(gs.contains(x));
        let i = choose|i: int| 0 <= i < gs.len() && gs[i] == x;
        let others = gs.remove(i);
        assert(others.to_multiset() =~= gs.to_multiset().remove(x));
        assert(others.to_multiset() =~= rest.to_multiset());
        law_digest_ignores_order(h, rest, others);
        assert(fs.map_values(|b: Seq<u8>| fnv128(b)).drop_last() =~= rest.map_values(
            |b: Seq<u8>| fnv128(b),
        ));
        assert(gs.map_values(|b: Seq<u8>| fnv128(b)) =~= others.map_values(|b: Seq<u8>| fnv128(b)).insert(
            i,
            fnv128(x),
        ));
        lemma_absorb_all_insert(h, others.map_values(|b: Seq<u8>| fnv128(b)), i, fnv128(x));
    }
}

/// Laws of the hasher: adding two facts in either order gives the same hasher state, and
/// removing a fact after adding it restores the hasher exactly.
pub proof fn law_hasher_order_independent_and_invertible(h: Accumulator, a: Seq<u8>, b: Seq<u8>)
    ensures
        absorb(absorb(h, fnv128(a)), fnv128(b)) == absorb(absorb(h, fnv128(b)), fnv128(a)),
        release(absorb(h, fnv128(a)), fnv128(a)) == h,
{
    lemma_absorb_commutes(h, fnv128(a), fnv128(b));
    lemma_release_inverts_absorb(h, fnv128(a));
}

} // verus!
