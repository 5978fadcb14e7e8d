//! Per-thread pseudo-random number generator.
//!
//! A 64-bit xorshift generator: deterministic given its seed, with the
//! state transition stated exactly.  Each worker thread owns one,
//! seeded once at start-up, so sampling needs no shared mutable state.

use vstd::prelude::*;

verus! {

/// One xorshift round over the 64-bit state.
pub open spec fn xorshift_step(x: u64) -> u64 {
    let a = x ^ (x << 13);
    let b = a ^ (a >> 7);
    b ^ (b << 17)
}

/// `n` xorshift rounds from `x`.
pub open spec fn xorshift_steps(x: u64, n: nat) -> u64
    decreases n,
{
    if n == 0 {
        x
    } else {
        xorshift_step(xorshift_steps(x, (n - 1) as nat))
    }
}

/// Xorshift generator state.
pub struct Rng(u64);

impl Rng {
    /// The current state.
    pub closed spec fn state(self) -> u64 {
        self.0
    }

    /// Builds a generator from a seed, warming it up with ten rounds so
    /// thin seeds (small integers) decorrelate.
    pub fn with_seed(seed: u64) -> (r: Rng)
        ensures
            r.state() == xorshift_steps(seed, 10),
    {
        let mut rng = Rng(seed);
        let mut i: u64 = 0;
        while i < 10
            invariant
                i <= 10,
                rng.state() == xorshift_steps(seed, i as nat),
            decreases 10 - i,
        {
            let _ = rng.raw_rand();
            i += 1;
        }
        rng
    }

    /// One raw 64-bit draw.
    fn raw_rand(&mut self) -> (r: u64)
        ensures
            final(self).state() == xorshift_step(old(self).state()),
            r == final(self).state(),
    {
        let mut x = self.0;
        x = x ^ (x << 13u64);
        x = x ^ (x >> 7u64);
        x = x ^ (x << 17u64);
        self.0 = x;
        x
    }

    /// A random value of `T`.
    pub fn rand<T: Random>(&mut self) -> (r: T) {
        T::rand(self)
    }

    /// A random value in `[min, max)`.  An empty range is a programming
    /// error, excluded by precondition.
    pub fn rand_range<T: Random>(&mut self, min: T, max: T) -> (r: T)
        requires
            min.lt_spec(max),
        ensures
            !r.lt_spec(min),
            r.lt_spec(max),
    {
        T::rand_range(self, min, max)
    }
}

/// Types that can be drawn from the generator.
pub trait Random: Sized {
    /// The ordering `rand_range` promises to respect.
    spec fn lt_spec(self, other: Self) -> bool;

    /// A random value.
    fn rand(rng: &mut Rng) -> Self;

    /// A random value in `[min, max)`.
    fn rand_range(rng: &mut Rng, min: Self, max: Self) -> (r: Self)
        requires
            min.lt_spec(max),
        ensures
            !r.lt_spec(min),
            r.lt_spec(max),
    ;
}

impl Random for u32 {
    open spec fn lt_spec(self, other: u32) -> bool {
        self < other
    }

    fn rand(rng: &mut Rng) -> u32 {
        (rng.raw_rand() % 0x1_0000_0000) as u32
    }

    fn rand_range(rng: &mut Rng, min: u32, max: u32) -> (r: u32) {
        let span = (max - min) as u64;
        let off = rng.raw_rand() % span;
        min + (off as u32)
    }
}

impl Random for u64 {
    open spec fn lt_spec(self, other: u64) -> bool {
        self < other
    }

    fn rand(rng: &mut Rng) -> u64 {
        rng.raw_rand()
    }

    fn rand_range(rng: &mut Rng, min: u64, max: u64) -> (r: u64) {
        let span = max - min;
        let off = rng.raw_rand() % span;
        min + off
    }
}

impl Random for usize {
    open spec fn lt_spec(self, other: usize) -> bool {
        self < other
    }

    fn rand(rng: &mut Rng) -> usize {
        (rng.raw_rand() % 0x1_0000_0000) as usize
    }

    fn rand_range(rng: &mut Rng, min: usize, max: usize) -> (r: usize) {
        let span = (max - min) as u64;
        let off = rng.raw_rand() % span;
        min + (off as usize)
    }
}

} // verus!
