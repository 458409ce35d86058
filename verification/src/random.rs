//! The stateful pseudo-random source behind tile spawning.
//!
//! Randomness is an injected capability: the [`Randomizer`] is passed
//! explicitly into every operation that needs it, and everything computed
//! *from* a drawn value is done by verified code that takes the draw as an
//! argument (`Board::place_tile`), so the board transition is deterministic
//! given the draws.

use vstd::prelude::*;

verus! {

#[verifier::external_type_specification]
#[verifier::external_body]
pub struct ExThreadRng(rand::rngs::ThreadRng);

/// Relies on `rand::rng`: a handle to the thread-local generator. Its only
/// failure is environmental (it panics if the operating system cannot seed
/// the generator), never input-dependent.
#[verifier::external_body]
fn fresh_rng() -> rand::rngs::ThreadRng {
    rand::rng()
}

/// Relies on `rand::RngExt::random_range` over `0..upper_bound`: a uniformly
/// distributed value in `[0, upper_bound)`. It panics exactly when the range
/// is empty, which the precondition rules out.
#[verifier::external_body]
fn random_below(rng: &mut rand::rngs::ThreadRng, upper_bound: usize) -> (r: usize)
    requires
        upper_bound >= 1,
    ensures
        r < upper_bound,
{
    rand::RngExt::random_range(rng, 0..upper_bound)
}

/// A pseudo-random source providing "uniform index below n" and "one chance
/// in ten" queries.
pub struct Randomizer {
    rng: rand::rngs::ThreadRng,
}

impl Randomizer {
    pub fn new() -> Randomizer {
        Randomizer { rng: fresh_rng() }
    }

    /// True with probability one in ten. Nothing can be promised of a random
    /// outcome: callers must handle both.
    pub(crate) fn ten_percent_chance(&mut self) -> bool {
        let digit = random_below(&mut self.rng, 10);
        digit == 0
    }

    /// A uniformly random index in `[0, upper_bound)`.
    pub(crate) fn gen_int_less_than(&mut self, upper_bound: usize) -> (r: usize)
        requires
            upper_bound >= 1,
        ensures
            r < upper_bound,
    {
        random_below(&mut self.rng, upper_bound)
    }
}

} // verus!
