//! Seeded random numbers from the `rand` crate.

use vstd::prelude::*;
use rand::rngs::{SmallRng, StdRng};
use rand::{Rng, SeedableRng};

verus! {

/// The number at an index of the sequence that `rand`'s `SmallRng` gives for a seed, on a machine
/// with words of so many bits.
pub uninterp spec fn small_number(seed: u64, word_bits: u32, index: nat) -> u64;

/// The number at an index of the sequence that `rand`'s `StdRng` gives for a seed.
pub uninterp spec fn standard_number(seed: u64, index: nat) -> u64;

/// `Rng::fill` on `SmallRng::seed_from_u64`: every place gets the number at its index of the
/// seed's sequence. `SmallRng` runs one algorithm on machines with 64-bit words and another one
/// elsewhere; besides the seed nothing else has a say in the numbers.
#[verifier::external_body]
fn fill_small(seed: u64, numbers: &mut Vec<u64>)
    ensures
        final(numbers)@.len() == old(numbers)@.len(),
        forall|i: int|
            0 <= i < final(numbers)@.len() ==> #[trigger] final(numbers)@[i] == small_number(
                seed,
                usize::BITS,
                i as nat,
            ),
{
    SmallRng::seed_from_u64(seed).fill(numbers.as_mut_slice());
}

/// `Rng::fill` on `StdRng::seed_from_u64`: every place gets the number at its index of the seed's
/// sequence. `StdRng` runs the same algorithm on all machines, and the seed alone decides.
#[verifier::external_body]
fn fill_standard(seed: u64, numbers: &mut Vec<u64>)
    ensures
        final(numbers)@.len() == old(numbers)@.len(),
        forall|i: int|
            0 <= i < final(numbers)@.len() ==> #[trigger] final(numbers)@[i] == standard_number(
                seed,
                i as nat,
            ),
{
    StdRng::seed_from_u64(seed).fill(numbers.as_mut_slice());
}

/// A sequence of random numbers, taken one by one. The numbers are made in batches, each of which
/// starts the sequence anew and reaches twice as far.
pub struct Draws {
    seed: u64,
    numbers: Vec<u64>,
    taken: usize,
}

impl Draws {
    /// The batch is the start of the sequence, and not more was taken than it holds.
    #[verifier::type_invariant]
    spec fn wf(self) -> bool {
        &&& self.taken <= self.numbers@.len()
        &&& forall|i: int|
            0 <= i < self.numbers@.len() ==> #[trigger] self.numbers@[i] == standard_number(
                self.seed,
                i as nat,
            )
    }

    /// The seed.
    pub closed spec fn seed(self) -> u64 {
        self.seed
    }

    /// How many numbers were taken.
    pub closed spec fn taken(self) -> nat {
        self.taken as nat
    }

    /// The number that comes next.
    pub open spec fn coming(self) -> u64 {
        standard_number(self.seed(), self.taken())
    }

    /// Starts the sequence of a seed.
    pub fn new(seed: u64) -> (draws: Self)
        ensures
            draws.seed() == seed,
            draws.taken() == 0,
    {
        Draws { seed, numbers: Vec::new(), taken: 0 }
    }

    /// The next number.
    pub fn next(&mut self) -> (draw: u64)
        requires
            old(self).taken() < usize::MAX,
        ensures
            draw == old(self).coming(),
            final(self).seed() == old(self).seed(),
            final(self).taken() == old(self).taken() + 1,
    {
        proof {
            use_type_invariant(&*self);
        }
        if self.taken == self.numbers.len() {
            let count: usize = if self.taken < 32 {
                64
            } else if self.taken <= usize::MAX / 2 {
                2 * self.taken
            } else {
                usize::MAX
            };
            let mut longer: Vec<u64> = vec![0u64; count];
            fill_standard(self.seed, &mut longer);
            self.numbers = longer;
        }
        let draw: u64 = self.numbers[self.taken];
        self.taken = self.taken + 1;
        draw
    }
}

/// The first numbers that the small generator gives for a seed.
pub fn seeded_draws(seed: u64, count: usize) -> (draws: Vec<u64>)
    ensures
        draws@ == small_numbers(seed, count as nat),
{
    let mut draws: Vec<u64> = vec![0u64; count];
    fill_small(seed, &mut draws);
    draws
}

/// The first numbers that the small generator gives for a seed on this machine.
pub open spec fn small_numbers(seed: u64, count: nat) -> Seq<u64> {
    Seq::new(count, |i: int| small_number(seed, usize::BITS, i as nat))
}

} // verus!
