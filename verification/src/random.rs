//! The source of the numbers from which bomb positions are drawn.

use vstd::prelude::*;

verus! {

/// A SplitMix64 generator: a stream of numbers that is fixed by its seed.
#[derive(Debug, Clone, Copy, PartialEq, Eq, Structural)]
pub struct SplitMix64 {
    pub state: u64,
}

impl SplitMix64 {
    /// The state that follows `state`: one step of the Weyl sequence.
    pub open spec fn advance(state: u64) -> u64 {
        state.wrapping_add(0x9E3779B97F4A7C15u64)
    }

    /// The state reached from `state` after `steps` steps.
    pub open spec fn advance_by(state: u64, steps: nat) -> u64
        decreases steps,
    {
        if steps == 0 {
            state
        } else {
            Self::advance(Self::advance_by(state, (steps - 1) as nat))
        }
    }

    /// The number that the generator yields on reaching `state`.
    pub open spec fn mix(state: u64) -> u64 {
        let a = (state ^ (state >> 30u64)).wrapping_mul(0xBF58476D1CE4E5B9u64);
        let b = (a ^ (a >> 27u64)).wrapping_mul(0x94D049BB133111EBu64);
        b ^ (b >> 31u64)
    }

    /// The next `count` numbers of a generator in the state `state`: the
    /// mix of each of the states that follow it.
    pub open spec fn stream(state: u64, count: nat) -> Seq<u64> {
        Seq::new(count, |i: int| Self::mix(Self::advance_by(state, (i + 1) as nat)))
    }

    /// A generator whose stream is determined by `seed`.
    pub fn seeded(seed: u64) -> (source: Self)
        ensures
            source.state == seed,
    {
        SplitMix64 { state: seed }
    }

    /// Advances the state by one step and yields the mix of the new state.
    pub fn next_u64(&mut self) -> (drawn: u64)
        ensures
            final(self).state == Self::advance(old(self).state),
            drawn == Self::mix(final(self).state),
            drawn == Self::stream(old(self).state, 1)[0],
    {
        assert(Self::advance_by(self.state, 1) == Self::advance(self.state)) by {
            reveal_with_fuel(SplitMix64::advance_by, 2);
        }
        self.state = self.state.wrapping_add(0x9E3779B97F4A7C15u64);
        let a: u64 = (self.state ^ (self.state >> 30u64)).wrapping_mul(0xBF58476D1CE4E5B9u64);
        let b: u64 = (a ^ (a >> 27u64)).wrapping_mul(0x94D049BB133111EBu64);
        b ^ (b >> 31u64)
    }

    /// Draws the next `count` numbers of the stream.
    pub fn draw(&mut self, count: usize) -> (draws: Vec<u64>)
        ensures
            draws@ == Self::stream(old(self).state, count as nat),
            final(self).state == Self::advance_by(old(self).state, count as nat),
    {
        let mut draws: Vec<u64> = Vec::new();
        let mut k: usize = 0;
        while k < count
            invariant
                k <= count,
                self.state == Self::advance_by(old(self).state, k as nat),
                draws@ == Self::stream(old(self).state, k as nat),
            decreases count - k,
        {
            let drawn = self.next_u64();
            draws.push(drawn);
            k += 1;
        }
        draws
    }
}

} // verus!
