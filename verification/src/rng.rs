use rand::Rng;
use vstd::prelude::*;

verus! {

/// Relies on `rand::Rng::gen_range` over the range `0..n`: the sampled value
/// lies within that range, which is nonempty exactly when `n > 0`. Nothing
/// more is assumed of the sample; callers must hold for every value below
/// `n`.
#[verifier::external_body]
pub(crate) fn rand_below(n: usize) -> (r: usize)
    requires
        n > 0,
    ensures
        r < n,
{
    rand::thread_rng().gen_range(0..n)
}

} // verus!
