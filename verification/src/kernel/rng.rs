//! The seeded stream forest: all randomness is deterministic and reproducible. Substreams are
//! issued per `(system, tick, scope)`, so the same world seed replays exactly; no system ever
//! touches OS entropy.

use vstd::prelude::*;
use vstd::wrapping::u64_specs::{wrapping_add, wrapping_mul, wrapping_sub};

verus! {

/// The key identifying one deterministic random substream: `(system, tick, scope)`.
#[derive(Clone, Copy, PartialEq, Eq, Hash, Debug)]
pub struct SubstreamKey {
    /// The identifier of the system drawing from this substream.
    pub system: u32,
    /// The tick this substream belongs to.
    pub tick: u64,
    /// The scope key isolating this draw from others in the same system and tick.
    pub scope: u64,
}

impl SubstreamKey {
    /// Construct a substream key from its `(system, tick, scope)` components.
    pub fn new(system: u32, tick: u64, scope: u64) -> (k: SubstreamKey)
        ensures
            k == (SubstreamKey { system, tick, scope }),
    {
        SubstreamKey { system, tick, scope }
    }

    /// The identifier of the system drawing from this substream.
    pub fn system(&self) -> (r: u32)
        ensures
            r == self.system,
    {
        self.system
    }

    /// The tick this substream belongs to.
    pub fn tick(&self) -> (r: u64)
        ensures
            r == self.tick,
    {
        self.tick
    }

    /// The scope key isolating this draw.
    pub fn scope(&self) -> (r: u64)
        ensures
            r == self.scope,
    {
        self.scope
    }
}

/// The SplitMix64 increment (the golden-ratio gamma).
pub open spec fn gamma() -> u64 {
    0x9E37_79B9_7F4A_7C15u64
}

/// The SplitMix64 finaliser, a fixed strong bit-mixing pass.
pub open spec fn mix_spec(z: u64) -> u64 {
    let z1 = wrapping_mul(z ^ (z >> 30u64), 0xBF58_476D_1CE4_E5B9u64);
    let z2 = wrapping_mul(z1 ^ (z1 >> 27u64), 0x94D0_49BB_1331_11EBu64);
    z2 ^ (z2 >> 31u64)
}

/// SplitMix64 finaliser.
pub fn mix(z: u64) -> (r: u64)
    ensures
        r == mix_spec(z),
{
    let z1 = (z ^ (z >> 30)).wrapping_mul(0xBF58_476D_1CE4_E5B9);
    let z2 = (z1 ^ (z1 >> 27)).wrapping_mul(0x94D0_49BB_1331_11EB);
    z2 ^ (z2 >> 31)
}

/// The state a substream starts from for `key` under world `seed`.
pub open spec fn substream_state(seed: u64, key: SubstreamKey) -> u64 {
    mix_spec(mix_spec(mix_spec(seed ^ (key.system as u64)) ^ key.tick) ^ key.scope)
}

/// The state after `j` further draws from `state`.
pub open spec fn advance(state: u64, j: nat) -> u64
    decreases j,
{
    if j == 0 {
        state
    } else {
        wrapping_add(advance(state, (j - 1) as nat), gamma())
    }
}

/// The `j`-th value drawn (1-based) from a stream in `state`.
pub open spec fn draw(state: u64, j: nat) -> u64 {
    mix_spec(advance(state, j))
}

/// The low word of `x * bound`, which decides whether a draw would bias the result.
pub open spec fn low_word(x: u64, bound: u64) -> int {
    (x as int * bound as int) % 0x1_0000_0000_0000_0000int
}

/// The high word of `x * bound`: the candidate result in `0..bound`.
pub open spec fn high_word(x: u64, bound: u64) -> int {
    (x as int * bound as int) / 0x1_0000_0000_0000_0000int
}

/// The rejection threshold `2^64 mod bound`: draws whose low word falls below it are retried.
pub open spec fn rejection_threshold(bound: u64) -> int {
    (0x1_0000_0000_0000_0000int - bound as int) % (bound as int)
}

/// Whether a draw is accepted by the unbiased multiply-shift reduction to `0..bound`.
pub open spec fn accepted(x: u64, bound: u64) -> bool {
    low_word(x, bound) >= rejection_threshold(bound)
}

/// The most draws `below` makes before giving up on rejection (never reached: the stream
/// visits every word within `2^64` draws, and the word 1 is always accepted).
pub open spec fn draw_budget() -> nat {
    0xFFFF_FFFF_FFFF_FFFFnat
}

/// Whether draw `k` is the one a bounded draw keeps: the first accepted draw, or the last
/// of the budget.
pub open spec fn kept_draw(state: u64, bound: u64, k: nat) -> bool {
    &&& 1 <= k <= draw_budget()
    &&& forall|j: nat| 1 <= j < k ==> !accepted(#[trigger] draw(state, j), bound)
    &&& (accepted(draw(state, k), bound) || k == draw_budget())
}

/// The value a uniform draw below `bound` yields from a generator at `state`.
pub open spec fn below_spec(state: u64, bound: u64) -> u64 {
    high_word(draw(state, choose|k: nat| kept_draw(state, bound, k)), bound) as u64
}

/// At most one draw is the kept one.
pub proof fn lemma_kept_draw_unique(state: u64, bound: u64, a: nat, b: nat)
    requires
        kept_draw(state, bound, a),
        kept_draw(state, bound, b),
    ensures
        a == b,
{
    if a < b {
        assert(!accepted(draw(state, a), bound));
    } else if b < a {
        assert(!accepted(draw(state, b), bound));
    }
}

/// A deterministic random substream (SplitMix64).
#[derive(Clone, Debug)]
pub struct Rng {
    /// The current stream state.
    pub state: u64,
}

impl Rng {
    /// Issue the substream for `key` under world `seed`.
    pub fn for_substream(seed: u64, key: SubstreamKey) -> (r: Rng)
        ensures
            r.state == substream_state(seed, key),
    {
        let mut state = seed;
        state = mix(state ^ (key.system() as u64));
        state = mix(state ^ key.tick());
        state = mix(state ^ key.scope());
        Rng { state }
    }

    /// The next 64-bit value in the substream.
    pub fn next_u64(&mut self) -> (r: u64)
        ensures
            final(self).state == wrapping_add(old(self).state, gamma()),
            r == mix_spec(final(self).state),
    {
        self.state = self.state.wrapping_add(0x9E37_79B9_7F4A_7C15);
        mix(self.state)
    }

    /// A value in `0..bound`, uniformly: Lemire's multiply-shift with rejection, so no low
    /// value is over-represented when `bound` does not divide `2^64`. The result is the high
    /// word of the first accepted draw.
    pub fn below(&mut self, bound: u64) -> (r: u64)
        requires
            bound > 0,
        ensures
            r < bound,
            exists|k: nat|
                1 <= k <= draw_budget() && final(self).state == advance(old(self).state, k)
                    && r == high_word(draw(old(self).state, k), bound) && (forall|j: nat|
                    1 <= j < k ==> !accepted(#[trigger] draw(old(self).state, j), bound)) && (
                accepted(draw(old(self).state, k), bound) || k == draw_budget()),
            r == below_spec(old(self).state, bound),
    {
        let ghost start = self.state;
        let x = self.next_u64();
        proof {
            assert(advance(start, 1) == wrapping_add(advance(start, 0), gamma()));
        }
        proof {
            lemma_product_fits(x, bound);
        }
        let mut product: u128 = (x as u128) * (bound as u128);
        let mut low: u64 = #[verifier::truncate] (product as u64);
        let mut drawn: u64 = 1;
        proof {
            lemma_words(x, bound, product, low);
        }
        if low < bound {
            let threshold: u64 = (0u64.wrapping_sub(bound)) % bound;
            while low < threshold && drawn < u64::MAX
                invariant
                    1 <= drawn <= u64::MAX,
                    self.state == advance(start, drawn as nat),
                    product == draw(start, drawn as nat) as int * bound as int,
                    low as int == low_word(draw(start, drawn as nat), bound),
                    threshold as int == rejection_threshold(bound),
                    bound > 0,
                    forall|j: nat| 1 <= j < drawn ==> !accepted(#[trigger] draw(start, j), bound),
                decreases u64::MAX - drawn,
            {
                let y = self.next_u64();
                proof {
                    assert(advance(start, (drawn + 1) as nat) == wrapping_add(
                        advance(start, drawn as nat),
                        gamma(),
                    ));
                }
                proof {
                    lemma_product_fits(y, bound);
                }
                product = (y as u128) * (bound as u128);
                low = #[verifier::truncate] (product as u64);
                proof {
                    lemma_words(y, bound, product, low);
                }
                drawn = drawn + 1;
            }
            proof {
                lemma_high_below(draw(start, drawn as nat), bound, product);
            }
            let r = #[verifier::truncate] ((product >> 64) as u64);
            proof {
                lemma_high(product, r);
                assert(kept_draw(start, bound, drawn as nat));
                lemma_kept_draw_unique(
                    start,
                    bound,
                    drawn as nat,
                    choose|k: nat| kept_draw(start, bound, k),
                );
            }
            r
        } else {
            proof {
                lemma_high_below(x, bound, product);
                assert(rejection_threshold(bound) < bound);
            }
            let r = #[verifier::truncate] ((product >> 64) as u64);
            proof {
                lemma_high(product, r);
                assert(kept_draw(start, bound, 1));
                lemma_kept_draw_unique(start, bound, 1, choose|k: nat| kept_draw(start, bound, k));
            }
            r
        }
    }
}

/// The product of two 64-bit words fits in 128 bits.
proof fn lemma_product_fits(x: u64, bound: u64)
    ensures
        (x as int) * (bound as int) <= u128::MAX,
{
    assert((x as int) * (bound as int) <= 0xFFFF_FFFF_FFFF_FFFFint * 0xFFFF_FFFF_FFFF_FFFFint) by (
    nonlinear_arith)
        requires
            0 <= x <= 0xFFFF_FFFF_FFFF_FFFFint,
            0 <= bound <= 0xFFFF_FFFF_FFFF_FFFFint,
    ;
}

/// The truncated low word of a 128-bit product is its remainder modulo `2^64`.
proof fn lemma_words(x: u64, bound: u64, product: u128, low: u64)
    requires
        product == x as int * bound as int,
        low == product as u64,
    ensures
        low as int == low_word(x, bound),
{
    assert(low as int == product as int % 0x1_0000_0000_0000_0000int) by (bit_vector)
        requires
            low == product as u64,
    ;
}

/// The high word of `x * bound` is below `bound`.
proof fn lemma_high_below(x: u64, bound: u64, product: u128)
    requires
        product == x as int * bound as int,
        bound > 0,
    ensures
        high_word(x, bound) < bound,
        high_word(x, bound) == product as int / 0x1_0000_0000_0000_0000int,
{
    assert((x as int) * (bound as int) < 0x1_0000_0000_0000_0000int * (bound as int)) by (nonlinear_arith)
        requires
            (x as int) < 0x1_0000_0000_0000_0000int,
            bound > 0,
    ;
    assert(((x as int) * (bound as int)) / 0x1_0000_0000_0000_0000int < (bound as int)) by (
    nonlinear_arith)
        requires
            (x as int) * (bound as int) < 0x1_0000_0000_0000_0000int * (bound as int),
            bound > 0,
    ;
}

/// Shifting a 128-bit word right by 64 divides it by `2^64`.
proof fn lemma_high(product: u128, r: u64)
    requires
        r == (product >> 64u128) as u64,
        (product as int) / 0x1_0000_0000_0000_0000int < 0x1_0000_0000_0000_0000int,
    ensures
        r as int == product as int / 0x1_0000_0000_0000_0000int,
{
    assert((product >> 64u128) as int == product as int / 0x1_0000_0000_0000_0000int) by (
    bit_vector);
}

} // verus!
