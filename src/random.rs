use rand::seq::SliceRandom;
use rand::Rng;
use vstd::prelude::*;

verus! {

/// The seedable generator that the probes draw their payloads, fill values
/// and shuffles from.
#[verifier::external_type_specification]
#[verifier::external_body]
pub struct ExStdRng(rand::rngs::StdRng);

/// Relies on `rand::Rng::gen` for `u32`: any value may come back.
#[verifier::external_body]
pub(crate) fn random_u32(rng: &mut rand::rngs::StdRng) -> u32 {
    rng.gen()
}

/// Relies on `rand::Rng::gen` for `u64`: any value may come back.
#[verifier::external_body]
pub(crate) fn random_u64(rng: &mut rand::rngs::StdRng) -> u64 {
    rng.gen()
}

/// Relies on `rand::seq::SliceRandom::shuffle`, which only swaps elements of
/// the slice: the same elements come back, in some order.
#[verifier::external_body]
pub(crate) fn shuffle_indices(v: &mut Vec<usize>, rng: &mut rand::rngs::StdRng)
    ensures
        final(v)@.to_multiset() == old(v)@.to_multiset(),
{
    v.shuffle(rng);
}

/// `n` payloads drawn from `rng`, one after another.
pub fn random_payloads(n: usize, rng: &mut rand::rngs::StdRng) -> (r: Vec<u32>)
    ensures
        r@.len() == n,
{
    let mut v: Vec<u32> = Vec::new();
    let mut i: usize = 0;
    while i < n
        invariant
            i <= n,
            v@.len() == i,
        decreases n - i,
    {
        v.push(random_u32(rng));
        i += 1;
    }
    v
}

} // verus!
