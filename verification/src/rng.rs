//! Deterministic random-number source for spawn-point and AI selection.
//!
//! All in-round randomness flows through one seeded xorshift generator, so
//! a round is a pure function of its inputs and the seed. Fresh entropy
//! enters only through `entropy_seed`, at the session edge.

use vstd::prelude::*;

verus! {

/// The xorshift successor of a generator state.
pub open spec fn rng_next(s: u64) -> u64 {
    let a = s ^ (s << 13);
    let b = a ^ (a >> 7);
    b ^ (b << 17)
}

/// Seeded deterministic generator: same seed, same draws.
#[derive(Debug, Clone, Copy, PartialEq, Eq, Structural)]
pub struct GameRng {
    pub state: u64,
}

impl GameRng {
    pub fn new(seed: u64) -> (r: GameRng)
        ensures
            r.state == seed,
    {
        GameRng { state: seed }
    }

    /// The next raw draw; also the generator's next state.
    pub fn next_u64(&mut self) -> (r: u64)
        ensures
            r == rng_next(old(self).state),
            final(self).state == rng_next(old(self).state),
    {
        let mut s = self.state;
        s = s ^ (s << 13);
        s = s ^ (s >> 7);
        s = s ^ (s << 17);
        self.state = s;
        s
    }
}

/// Relies on rand_core::OsRng::next_u64: a fresh seed from the operating
/// system. Nothing can be promised of a random value.
#[verifier::external_body]
pub fn entropy_seed() -> u64 {
    rand_core::RngCore::next_u64(&mut rand_core::OsRng)
}

} // verus!
