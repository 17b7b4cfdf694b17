use rand::seq::SliceRandom;
use vstd::prelude::*;

verus! {

/// The random number generator that `rand` keeps for each thread.
#[verifier::external_type_specification]
#[verifier::external_body]
pub struct ExThreadRng(rand::rngs::ThreadRng);

/// Calls `rand::thread_rng`, which hands out the generator of the current
/// thread; nothing is promised of its state.
#[verifier::external_body]
pub(crate) fn thread_rng() -> rand::rngs::ThreadRng {
    rand::thread_rng()
}

/// Calls `SliceRandom::shuffle` on the prompts. Its source swaps elements
/// in place (a Fisher-Yates shuffle), so the result holds exactly the same
/// elements, in an order that rests on chance.
#[verifier::external_body]
pub(crate) fn shuffle_texts(texts: &mut Vec<&'static str>, rng: &mut rand::rngs::ThreadRng)
    ensures
        final(texts)@.to_multiset() == old(texts)@.to_multiset(),
{
    texts.shuffle(rng);
}

} // verus!
