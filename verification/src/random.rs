//! The randomness behind the choice of substitution candidates.
//!
//! A [`RandomSource`] is a small seeded generator: from one seed it gives one
//! fixed sequence of draws. Hand it a seed drawn from the system to make a
//! request unpredictable, or a chosen seed to make it repeatable.

use vstd::prelude::*;

verus! {

/// The state that follows `state`: one step of a linear congruential
/// generator modulo 2^64.
pub open spec fn next_state(state: u64) -> u64 {
    state.wrapping_mul(6364136223846793005u64).wrapping_add(1442695040888963407u64)
}

/// The index below `bound` that a source in state `state` draws next: the
/// upper half of the state that follows, modulo `bound`.
pub open spec fn draw_below(state: u64, bound: int) -> int {
    (next_state(state) / 4294967296u64) as int % bound
}

/// A seeded source of draws.
pub struct RandomSource {
    state: u64,
}

impl View for RandomSource {
    type V = u64;

    closed spec fn view(&self) -> u64 {
        self.state
    }
}

impl RandomSource {
    /// A source that starts from `seed`.
    pub fn new(seed: u64) -> (source: RandomSource)
        ensures
            source@ == seed,
    {
        RandomSource { state: seed }
    }

    /// Draws an index below `bound` and moves the source one state on.
    pub fn below(&mut self, bound: usize) -> (index: usize)
        requires
            bound > 0,
        ensures
            index == draw_below(old(self)@, bound as int),
            final(self)@ == next_state(old(self)@),
            index < bound,
    {
        let next: u64 = self.state.wrapping_mul(6364136223846793005u64).wrapping_add(
            1442695040888963407u64,
        );
        self.state = next;
        let high: u64 = next / 4294967296u64;
        let index: u64 = high % (bound as u64);
        index as usize
    }
}

/// A draw is always a valid index.
pub proof fn lemma_draw_in_range(state: u64, bound: int)
    requires
        bound > 0,
    ensures
        0 <= draw_below(state, bound) < bound,
{
}

} // verus!
