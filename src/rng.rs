//! A small linear congruential generator.
//!
//! Each draw advances the state to `state * LCG_MULTIPLIER + 1` modulo
//! `2^64` and reduces the new state into the requested range.
use vstd::prelude::*;
use vstd::arithmetic::div_mod::lemma_add_mod_noop;

verus! {

/// Multiplier of the generator.
pub const LCG_MULTIPLIER: u64 = 6364136223846793005;

/// State that follows state `s`.
pub open spec fn lcg_next(s: u64) -> u64 {
    ((s as nat * LCG_MULTIPLIER as nat + 1) % 0x1_0000_0000_0000_0000nat) as u64
}

/// Pseudo-random generator of indices.
pub struct Rng {
    state: u64,
}

impl View for Rng {
    type V = u64;

    /// The generator's current state.
    closed spec fn view(&self) -> u64 {
        self.state
    }
}

/// Relies on `std::time::SystemTime::now`: the nanoseconds since the Unix
/// epoch, truncated to 64 bits, or `0` for a clock set before the epoch.
/// Nothing is promised of the value.
#[verifier::external_body]
fn clock_seed() -> u64 {
    std::time::SystemTime::now().duration_since(std::time::UNIX_EPOCH).unwrap_or_default().as_nanos() as u64
}

impl Rng {
    /// A generator seeded from the system clock.
    pub fn new() -> (r: Self) {
        Self::from_seed(clock_seed())
    }

    /// A generator whose state is `seed`.
    pub fn from_seed(seed: u64) -> (r: Self)
        ensures
            r@ == seed,
    {
        Rng { state: seed }
    }

    /// Draws an index in `range`: the next state, reduced modulo the
    /// range's length and added to its start.
    pub fn usize(&mut self, range: std::ops::Range<usize>) -> (r: usize)
        requires
            range.start < range.end,
        ensures
            final(self)@ == lcg_next(old(self)@),
            r == range.start + (lcg_next(old(self)@) as usize) as int % (range.end - range.start),
            range.start <= r < range.end,
    {
        let val = self.next_u64();
        let span = range.end - range.start;
        range.start + (val as usize % span)
    }

    /// Advances the state and returns it.
    fn next_u64(&mut self) -> (r: u64)
        ensures
            r == lcg_next(old(self)@),
            final(self)@ == r,
    {
        let m = self.state.wrapping_mul(LCG_MULTIPLIER);
        proof {
            let p = self.state as nat * LCG_MULTIPLIER as nat;
            lemma_add_mod_noop(p as int, 1, 0x1_0000_0000_0000_0000int);
            assert((1int % 0x1_0000_0000_0000_0000int) == 1);
            assert(m == p % 0x1_0000_0000_0000_0000nat);
            if m as int + 1 > u64::MAX {
                assert(m + 1 == 0x1_0000_0000_0000_0000int);
            }
        }
        self.state = m.wrapping_add(1);
        self.state
    }
}

} // verus!
