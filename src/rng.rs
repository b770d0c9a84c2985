//! Random draws for training, from the thread-local generator of `rand`.
use rand::distributions::Uniform;
use rand::Rng;
use vstd::prelude::*;

verus! {

/// Relies on `rand::Rng::gen_range` over `rand::thread_rng()`: a value drawn
/// from `0..n`; `gen_range` panics on an empty range, which `n > 0` excludes.
#[verifier::external_body]
pub(crate) fn random_index(n: usize) -> (r: usize)
    requires
        n > 0,
    ensures
        r < n,
{
    rand::thread_rng().gen_range(0..n)
}

/// Relies on `rand::distributions::Uniform::from(0..bound)` sampled with
/// `rand::thread_rng()`: a value in `0..bound`; `Uniform::new` panics on an
/// empty range, which `bound > 0` excludes.
#[verifier::external_body]
pub(crate) fn random_below(bound: i64) -> (r: i64)
    requires
        bound > 0,
    ensures
        0 <= r < bound,
{
    rand::thread_rng().sample(Uniform::from(0..bound))
}

} // verus!
