use vstd::prelude::*;

verus! {

/// Deterministic xorshift pseudorandom generator.  Each work unit owns one;
/// every draw is pinned exactly by the recurrence, so the sampling code
/// verifies like any other arithmetic.  Seeding is the caller's business:
/// tests inject fixed seeds, the renderer seeds from entropy.
pub struct Prng {
    pub state: u64,
}

/// One xorshift step.
pub open spec fn spec_next(s: u64) -> u64 {
    let a = s ^ (s << 13);
    let b = a ^ (a >> 7);
    b ^ (b << 17)
}

impl Prng {
    /// A zero seed would lock the recurrence at zero, so it is replaced by
    /// a fixed odd constant.
    pub fn new(seed: u64) -> (rng: Prng)
        ensures
            rng.state == if seed == 0 {
                0x9E3779B97F4A7C15u64
            } else {
                seed
            },
    {
        if seed == 0 {
            Prng { state: 0x9E3779B97F4A7C15 }
        } else {
            Prng { state: seed }
        }
    }

    pub fn next_u64(&mut self) -> (r: u64)
        ensures
            final(self).state == spec_next(old(self).state),
            r == final(self).state,
    {
        let mut x = self.state;
        x = x ^ (x << 13);
        x = x ^ (x >> 7);
        x = x ^ (x << 17);
        self.state = x;
        x
    }

    /// A draw in `[0, n)` by reduction modulo `n`.
    pub fn next_below(&mut self, n: u64) -> (r: u64)
        requires
            0 < n,
        ensures
            final(self).state == spec_next(old(self).state),
            r == spec_next(old(self).state) % n,
            r < n,
    {
        let x = self.next_u64();
        x % n
    }
}

/// Relies on rand::random: draws one fresh, unpredictable 64-bit seed from
/// the thread-local generator.  Nothing can be promised of its value.
#[verifier::external_body]
pub fn seed_from_entropy() -> u64 {
    rand::random::<u64>()
}

} // verus!
