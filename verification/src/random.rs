//! The random source: every random choice of the library is drawn from the
//! operating system's generator.
//!
//! Where that generator fails, the calls below panic. No argument decides
//! this, so no precondition can keep it out.

use rand::seq::SliceRandom;
use rand::Rng;
use vstd::prelude::*;

verus! {

/// `Rng::gen_range` on `OsRng`, over `0..bound`: the result lies below the bound.
/// Which value comes back is left open. An empty range makes `gen_range` panic,
/// hence the precondition.
#[verifier::external_body]
pub(crate) fn random_index(bound: usize) -> (i: usize)
    requires
        bound > 0,
    ensures
        i < bound,
{
    rand::rngs::OsRng.gen_range(0..bound)
}

/// `Rng::fill` on `OsRng`: an array of `N` bytes from the generator. Nothing is
/// claimed of the bytes.
#[verifier::external_body]
pub(crate) fn random_bytes<const N: usize>() -> (bytes: [u8; N]) {
    let mut bytes = [0u8; N];
    rand::rngs::OsRng.fill(&mut bytes[..]);
    bytes
}

/// `SliceRandom::shuffle` with `OsRng`: the characters are put in another order
/// by a sequence of swaps, so the same characters are there afterwards, each as
/// often as before. Which order comes out is left open.
#[verifier::external_body]
pub(crate) fn shuffle(chars: &mut Vec<char>)
    ensures
        final(chars)@.to_multiset() == old(chars)@.to_multiset(),
        final(chars)@.len() == old(chars)@.len(),
{
    chars.shuffle(&mut rand::rngs::OsRng);
}

} // verus!
