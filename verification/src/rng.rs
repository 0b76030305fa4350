use vstd::prelude::*;

use rand::Rng;

verus! {

/// Relies on `rand::thread_rng` and `rand::Rng::gen::<usize>`: a random
/// machine word from the thread-local generator. Nothing is promised of the
/// value; callers reduce it to the range they need and must cope with every
/// outcome.
#[verifier::external_body]
pub(crate) fn random_usize() -> usize {
    rand::thread_rng().gen::<usize>()
}

} // verus!
