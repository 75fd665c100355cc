//! Seeded pseudo-random draws, trusted at the boundary to `rand_pcg`.
//!
//! `Pcg64Mcg` is a deterministic generator: the whole word stream is a
//! function of the seed alone. The stream is named by the uninterpreted
//! `pcg_draw`, so that contracts downstream can pin results exactly to
//! the seed that produced them.

use vstd::prelude::*;

verus! {

/// The `index`-th 64-bit word that a `Pcg64Mcg` generator seeded with
/// `seed` produces.
pub uninterp spec fn pcg_draw(seed: u64, index: nat) -> u64;

#[verifier::external_type_specification]
#[verifier::external_body]
pub struct ExPcg64Mcg(rand_pcg::Pcg64Mcg);

/// A `Pcg64Mcg` generator together with the seed it was built from and
/// a count of the words drawn so far, so that each draw can be tied to
/// its position in the stream.
pub(crate) struct SampleRng {
    inner: rand_pcg::Pcg64Mcg,
    seed: Ghost<u64>,
    drawn: Ghost<nat>,
}

impl SampleRng {
    /// The seed this generator was built from.
    pub(crate) closed spec fn seed(&self) -> u64 {
        self.seed@
    }

    /// How many words have been drawn from this generator so far.
    pub(crate) closed spec fn drawn(&self) -> nat {
        self.drawn@
    }

    /// Relies on `rand_pcg::Pcg64Mcg::new`: the generator state is a
    /// function of the seed alone.
    #[verifier::external_body]
    pub(crate) fn new(seed: u64) -> (r: SampleRng)
        ensures
            r.seed() == seed,
            r.drawn() == 0,
    {
        SampleRng {
            inner: rand_pcg::Pcg64Mcg::new(seed as u128),
            seed: Ghost(seed),
            drawn: Ghost(0nat),
        }
    }

    /// Relies on `RngCore::next_u64` for `rand_pcg::Pcg64Mcg`: each call
    /// advances the state by one step and returns the next word of the
    /// stream determined by the seed.
    #[verifier::external_body]
    pub(crate) fn next_word(&mut self) -> (r: u64)
        ensures
            final(self).seed() == old(self).seed(),
            final(self).drawn() == old(self).drawn() + 1,
            r == pcg_draw(old(self).seed(), old(self).drawn()),
    {
        rand::RngCore::next_u64(&mut self.inner)
    }
}

} // verus!
