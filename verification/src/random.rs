//! The random number generator that quote picking draws from.
use vstd::prelude::*;
use rand::rngs::ThreadRng;

verus! {

/// `rand`'s thread-local generator, carried through opaquely.
#[verifier::external_type_specification]
#[verifier::external_body]
pub struct ExThreadRng(ThreadRng);

/// The thread-local generator (`rand::thread_rng`).  Nothing is stated of
/// its state; `rand` panics here only if the operating system's entropy
/// source cannot seed it.
#[verifier::external_body]
pub(crate) fn thread_rng() -> ThreadRng {
    rand::thread_rng()
}

/// A uniformly drawn index below `bound` (`Rng::gen_range(rng, 0..bound)`):
/// the result is in `0..bound`; which one is chance.  `gen_range` panics on
/// an empty range, which `requires` leaves out.
#[verifier::external_body]
pub(crate) fn random_index(rng: &mut ThreadRng, bound: usize) -> (r: usize)
    requires
        bound > 0,
    ensures
        r < bound,
{
    rand::Rng::gen_range(rng, 0..bound)
}

} // verus!
