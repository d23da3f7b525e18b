//! The injected random source. Generation and sampling take a seedable
//! generator from the rand crate; these are the only calls the core makes
//! into it.

use vstd::prelude::*;

verus! {

#[verifier::external_type_specification]
#[verifier::external_body]
pub struct ExStdRng(rand::rngs::StdRng);

/// Relies on rand's `Rng::gen_range` over the half-open range `0..bound`:
/// the sampled value lies in that range, and the call panics only when the
/// range is empty, which the precondition rules out.
#[verifier::external_body]
pub(crate) fn gen_index(rng: &mut rand::rngs::StdRng, bound: usize) -> (r: usize)
    requires
        bound >= 1,
    ensures
        r < bound,
{
    rand::Rng::gen_range(rng, 0..bound)
}

/// Relies on rand's `RngCore::next_u64`: hands back the generator's next
/// 64-bit word; any value may come out.
#[verifier::external_body]
pub(crate) fn next_word(rng: &mut rand::rngs::StdRng) -> (r: u64)
{
    rand::RngCore::next_u64(rng)
}

} // verus!
