use rand::Rng;
use vstd::prelude::*;

verus! {

/// Relies on `rand::random::<u64>`: a value drawn from the thread-local
/// generator. Nothing is promised of which value comes out.
#[verifier::external_body]
pub(crate) fn random_u64() -> (r: u64) {
    rand::random::<u64>()
}

/// Relies on `rand::Rng::gen_range` over `0..high` on the thread-local
/// generator: a value in the half-open range, which the call asserts is not
/// empty (hence `high > 0`).
#[verifier::external_body]
pub(crate) fn random_below(high: u64) -> (r: u64)
    requires
        high > 0,
    ensures
        r < high,
{
    rand::thread_rng().gen_range(0..high)
}

} // verus!
