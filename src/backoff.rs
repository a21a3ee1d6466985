//! Exponential back-off for busy-waiting loops.
//!
//! Each call of [`BackOff::spin`] idles the processor for twice as many
//! cycles as the one before, up to a limit; once the limit is reached,
//! [`BackOff::advise_yield`] tells the caller to stop spinning and to yield
//! or block instead. A randomized variant draws each cycle count from the
//! range between the previous and the current power of two, so that threads
//! that back off together do not stay in step.
use vstd::prelude::*;

use rand::rngs::SmallRng;
use rand::{Rng, SeedableRng};

verus! {

/// The exponent that a back-off starts at, and returns to on a reset.
pub const INIT_POW: u32 = 1;

/// The exponent at which spinning stops growing and yielding is advised.
pub const SPIN_LIMIT_POW: u32 = 7;

/// The seed that a [`SeedSource`] hands out first.
pub const INIT_SEED: u64 = 0xd1dc_dceb_2fb4_70f3;

/// How far a [`SeedSource`] moves on after each seed.
pub const SEED_INCREMENT: u64 = 51;

#[verifier::external_type_specification]
#[verifier::external_body]
pub struct ExSmallRng(SmallRng);

/// Relies on `SeedableRng::seed_from_u64` of rand's `SmallRng`: a generator
/// whose output is determined by `seed`.
#[verifier::external_body]
fn seeded_rng(seed: u64) -> SmallRng {
    SmallRng::seed_from_u64(seed)
}

/// Relies on the `Clone` that rand's `SmallRng` derives: a generator in the
/// same state.
#[verifier::external_body]
fn clone_rng(rng: &SmallRng) -> SmallRng {
    rng.clone()
}

/// Relies on `Rng::gen_range` of rand: a number in `low..high`. It panics
/// where `low >= high`.
#[verifier::external_body]
fn draw_in_range(rng: &mut SmallRng, low: u32, high: u32) -> (r: u32)
    requires
        low < high,
    ensures
        low <= r < high,
    no_unwind
{
    rng.gen_range(low, high)
}

/// The exponent after one more spin from exponent `pow`.
pub open spec fn next_pow(pow: u32) -> u32 {
    if pow < SPIN_LIMIT_POW {
        (pow + 1) as u32
    } else {
        pow
    }
}

/// The exponent after `k` more spins from exponent `pow`.
pub open spec fn pow_after_spins(pow: u32, k: nat) -> u32
    decreases k,
{
    if k == 0 {
        pow
    } else {
        pow_after_spins(next_pow(pow), (k - 1) as nat)
    }
}

/// The number of cycles that a spin at exponent `pow` idles for.
pub open spec fn spin_cycles(pow: u32) -> nat {
    vstd::arithmetic::power2::pow2(pow as nat)
}

#[derive(Debug)]
enum Strategy {
    Const { pow: u32 },
    Random { pow: u32, seed: u64, rng: SmallRng },
}

impl Strategy {
    spec fn pow(&self) -> u32 {
        match self {
            Strategy::Const { pow } => *pow,
            Strategy::Random { pow, .. } => *pow,
        }
    }

    spec fn seed(&self) -> Option<u64> {
        match self {
            Strategy::Const { .. } => None,
            Strategy::Random { seed, .. } => Some(*seed),
        }
    }

    spec fn generator(&self) -> Option<SmallRng> {
        match self {
            Strategy::Const { .. } => None,
            Strategy::Random { rng, .. } => Some(*rng),
        }
    }

    spec fn is_const(&self) -> bool {
        self is Const
    }

    spec fn in_range(&self) -> bool {
        INIT_POW <= self.pow() <= SPIN_LIMIT_POW
    }

    fn constant() -> (r: Self)
        ensures
            r.pow() == INIT_POW,
            r.is_const(),
    {
        Strategy::Const { pow: INIT_POW }
    }

    fn random_with_seed(seed: u64) -> (r: Self)
        ensures
            r.pow() == INIT_POW,
            r.seed() == Some(seed),
            !r.is_const(),
    {
        Strategy::Random { pow: INIT_POW, seed, rng: seeded_rng(seed) }
    }

    fn clone(&self) -> (r: Self)
        ensures
            r.pow() == self.pow(),
            r.seed() == self.seed(),
            r.is_const() == self.is_const(),
    {
        match self {
            Strategy::Const { pow } => Strategy::Const { pow: *pow },
            Strategy::Random { pow, seed, rng } => Strategy::Random {
                pow: *pow,
                seed: *seed,
                rng: clone_rng(rng),
            },
        }
    }

    /// Returns the number of cycles for the next spin and moves the exponent
    /// on.
    fn exponential_backoff(&mut self) -> (steps: u32)
        requires
            old(self).in_range(),
        ensures
            final(self).in_range(),
            final(self).pow() == next_pow(old(self).pow()),
            final(self).is_const() == old(self).is_const(),
            final(self).seed() == old(self).seed(),
            old(self).is_const() ==> steps == spin_cycles(old(self).pow()),
            !old(self).is_const() ==> spin_cycles((old(self).pow() - 1) as u32) <= steps < spin_cycles(
                old(self).pow(),
            ),
        no_unwind
    {
        proof {
            vstd::arithmetic::power2::lemma2_to64();
        }
        match self {
            Strategy::Const { pow } => {
                proof {
                    vstd::bits::lemma_u32_shl_is_mul(1, *pow);
                }
                let steps: u32 = 1u32 << *pow;
                if *pow < SPIN_LIMIT_POW {
                    *pow = *pow + 1;
                }
                steps
            },
            Strategy::Random { pow, rng, .. } => {
                proof {
                    vstd::bits::lemma_u32_shl_is_mul(1, (*pow - 1) as u32);
                    vstd::bits::lemma_u32_shl_is_mul(1, *pow);
                }
                let low: u32 = 1u32 << (*pow - 1);
                let high: u32 = 1u32 << *pow;
                if *pow < SPIN_LIMIT_POW {
                    *pow = *pow + 1;
                }
                draw_in_range(rng, low, high)
            },
        }
    }

    fn reset(&mut self)
        ensures
            final(self).pow() == INIT_POW,
            final(self).is_const() == old(self).is_const(),
            final(self).seed() == old(self).seed(),
            final(self).generator() == old(self).generator(),
        no_unwind
    {
        match self {
            Strategy::Const { pow } => {
                *pow = INIT_POW;
            },
            Strategy::Random { pow, .. } => {
                *pow = INIT_POW;
            },
        }
    }

    fn advise_yield(&self) -> (r: bool)
        ensures
            r == (self.pow() == SPIN_LIMIT_POW),
    {
        let pow = match self {
            Strategy::Const { pow } => *pow,
            Strategy::Random { pow, .. } => *pow,
        };
        pow == SPIN_LIMIT_POW
    }
}

/// A source of seeds for randomized back-offs, handing out a different seed
/// on each call.
#[derive(Debug)]
pub struct SeedSource {
    next: u64,
}

impl SeedSource {
    /// The seed that this source hands out next.
    pub closed spec fn next_seed(&self) -> u64 {
        self.next
    }

    /// Creates a source whose first seed is [`INIT_SEED`].
    pub fn new() -> (r: Self)
        ensures
            r.next_seed() == INIT_SEED,
    {
        SeedSource { next: INIT_SEED }
    }

    /// Creates a source whose first seed is `seed`.
    pub fn starting_at(seed: u64) -> (r: Self)
        ensures
            r.next_seed() == seed,
    {
        SeedSource { next: seed }
    }

    /// Hands out the next seed; the one after it is [`SEED_INCREMENT`]
    /// further on, modulo 2^64.
    pub fn take_seed(&mut self) -> (r: u64)
        ensures
            r == old(self).next_seed(),
            final(self).next_seed() == (old(self).next_seed() + SEED_INCREMENT) % 0x1_0000_0000_0000_0000,
    {
        let seed = self.next;
        self.next = seed.wrapping_add(SEED_INCREMENT);
        seed
    }
}

/// A helper for exponential back-off in busy-waiting loops.
#[derive(Debug)]
pub struct BackOff {
    strategy: Strategy,
}

impl BackOff {
    /// The current exponent: the next spin idles for 2^`pow()` cycles (or
    /// fewer, but at least half of that, in the randomized variant).
    pub closed spec fn pow(&self) -> u32 {
        self.strategy.pow()
    }

    /// Whether each spin draws its cycle count at random.
    pub closed spec fn is_random(&self) -> bool {
        !self.strategy.is_const()
    }

    /// The seed that the generator of a randomized back-off was made from;
    /// `None` for a back-off that is not randomized.
    pub closed spec fn seed(&self) -> Option<u64> {
        self.strategy.seed()
    }

    /// The generator of a randomized back-off, in its current state; `None`
    /// for a back-off that is not randomized.
    pub closed spec fn generator(&self) -> Option<SmallRng> {
        self.strategy.generator()
    }

    /// Whether further spinning is not advisable.
    pub open spec fn advises_yield(&self) -> bool {
        self.pow() == SPIN_LIMIT_POW
    }

    #[verifier::type_invariant]
    closed spec fn exponent_in_range(&self) -> bool {
        self.strategy.in_range()
    }

    /// Creates a back-off whose spins double in length each time.
    pub fn new() -> (r: Self)
        ensures
            r.pow() == INIT_POW,
            !r.is_random(),
            r.seed() is None,
    {
        BackOff { strategy: Strategy::constant() }
    }

    /// Creates a randomized back-off whose generator is seeded with `seed`.
    pub fn random_with_seed(seed: u64) -> (r: Self)
        ensures
            r.pow() == INIT_POW,
            r.is_random(),
            r.seed() == Some(seed),
    {
        BackOff { strategy: Strategy::random_with_seed(seed) }
    }

    /// Creates a randomized back-off seeded with the next seed of `seeds`.
    pub fn random(seeds: &mut SeedSource) -> (r: Self)
        ensures
            r.pow() == INIT_POW,
            r.is_random(),
            r.seed() == Some(old(seeds).next_seed()),
            final(seeds).next_seed() == (old(seeds).next_seed() + SEED_INCREMENT) % 0x1_0000_0000_0000_0000,
    {
        let seed = seeds.take_seed();
        Self::random_with_seed(seed)
    }

    /// Idles the processor for one cycle.
    ///
    /// Relies on `core::hint::spin_loop`, which hints the processor that
    /// the thread is busy-waiting. Never inlined, so that a loop of such
    /// calls is not optimised away.
    #[inline(never)]
    #[verifier::external_body]
    pub fn spin_once() {
        core::hint::spin_loop();
    }

    /// Returns the back-off to its initial exponent. A randomized back-off
    /// keeps its generator, in the state it has reached.
    pub fn reset(&mut self)
        ensures
            final(self).pow() == INIT_POW,
            final(self).is_random() == old(self).is_random(),
            final(self).seed() == old(self).seed(),
            final(self).generator() == old(self).generator(),
    {
        proof {
            use_type_invariant(&*self);
        }
        self.strategy.reset();
    }

    /// Idles the processor for 2^`pow()` cycles (randomized: for a count
    /// drawn from 2^(`pow()`-1) up to 2^`pow()`), then doubles the length of
    /// the next spin, until the limit exponent is reached. Returns the number
    /// of cycles, that is, of calls of [`spin_once`](Self::spin_once), made.
    pub fn spin(&mut self) -> (cycles: u32)
        ensures
            !old(self).is_random() ==> cycles == spin_cycles(old(self).pow()),
            old(self).is_random() ==> spin_cycles((old(self).pow() - 1) as u32) <= cycles
                < spin_cycles(old(self).pow()),
            final(self).pow() == next_pow(old(self).pow()),
            old(self).advises_yield() ==> final(self).advises_yield(),
            final(self).is_random() == old(self).is_random(),
            final(self).seed() == old(self).seed(),
    {
        proof {
            use_type_invariant(&*self);
        }
        let steps = self.strategy.exponential_backoff();
        let mut i: u32 = 0;
        while i < steps
            invariant
                i <= steps,
            decreases steps - i,
        {
            Self::spin_once();
            i = i + 1;
        }
        i
    }

    /// Returns `true` once further spinning is not advisable and the caller
    /// should rather yield or block.
    pub fn advise_yield(&self) -> (r: bool)
        ensures
            r == self.advises_yield(),
    {
        self.strategy.advise_yield()
    }

    /// Says in words whether yielding is advised.
    pub fn describe(&self) -> (r: &'static str)
        ensures
            self.advises_yield() ==> r@ == "advise yield: true"@,
            !self.advises_yield() ==> r@ == "advise yield: false"@,
    {
        if self.advise_yield() {
            "advise yield: true"
        } else {
            "advise yield: false"
        }
    }
}

impl Clone for BackOff {
    /// A back-off at the same exponent; a randomized one gets a copy of the
    /// generator in its current state.
    fn clone(&self) -> (r: Self)
        ensures
            r.pow() == self.pow(),
            r.is_random() == self.is_random(),
            r.seed() == self.seed(),
    {
        proof {
            use_type_invariant(self);
        }
        BackOff { strategy: self.strategy.clone() }
    }
}

impl Default for BackOff {
    fn default() -> (r: Self)
        ensures
            r.pow() == INIT_POW,
            !r.is_random(),
    {
        BackOff::new()
    }
}

/// Once a back-off advises yielding, it keeps doing so through any number
/// of further spins; only a reset, which returns it to [`INIT_POW`], ends
/// the advice.
pub proof fn lemma_yield_advice_persists(pow: u32, k: nat)
    requires
        pow == SPIN_LIMIT_POW,
    ensures
        pow_after_spins(pow, k) == SPIN_LIMIT_POW,
        INIT_POW != SPIN_LIMIT_POW,
    decreases k,
{
    if k > 0 {
        lemma_yield_advice_persists(next_pow(pow), (k - 1) as nat);
    }
}

/// A fresh back-off advises yielding after `k` spins exactly when `k` is at
/// least `SPIN_LIMIT_POW - INIT_POW`.
pub proof fn lemma_spins_until_yield(k: nat)
    ensures
        pow_after_spins(INIT_POW, k) == SPIN_LIMIT_POW <==> k >= SPIN_LIMIT_POW - INIT_POW,
{
    lemma_pow_after_spins(INIT_POW, k);
}

proof fn lemma_pow_after_spins(pow: u32, k: nat)
    requires
        pow <= SPIN_LIMIT_POW,
    ensures
        pow_after_spins(pow, k) == if pow + k < SPIN_LIMIT_POW {
            (pow + k) as u32
        } else {
            SPIN_LIMIT_POW
        },
    decreases k,
{
    if k > 0 {
        lemma_pow_after_spins(next_pow(pow), (k - 1) as nat);
    }
}

} // verus!
