use vstd::prelude::*;
use rand::Rng;

verus! {

/// `rand::thread_rng().gen_range(0..bound)` from rand 0.8: a value drawn
/// from the half-open range `0..bound`. The range must not be empty (the
/// call panics on an empty range). Which value comes out is left open.
#[verifier::external_body]
pub(crate) fn random_below(bound: u32) -> (r: u32)
    requires
        0 < bound,
    ensures
        r < bound,
{
    rand::thread_rng().gen_range(0..bound)
}

/// `rand::thread_rng().sample_iter(Standard).take(n).collect()` from
/// rand 0.8: `n` values drawn from the whole range of `i64`. Only the length
/// is stated; the values are left open.
#[verifier::external_body]
pub(crate) fn random_i64_values(n: usize) -> (v: Vec<i64>)
    ensures
        v.len() == n,
{
    rand::thread_rng().sample_iter(rand::distributions::Standard).take(n).collect()
}

} // verus!
