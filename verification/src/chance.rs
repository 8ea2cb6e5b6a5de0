use rand::Rng;
use vstd::prelude::*;

verus! {

/// Calls `rand::thread_rng().gen_range(low..high)`: a random number drawn
/// from `low..high`. The contract states only that it lies in the range
/// (`gen_range` panics on an empty range, which `requires` excludes).
#[verifier::external_body]
pub(crate) fn random_in_range(low: u64, high: u64) -> (r: u64)
    requires
        low < high,
    ensures
        low <= r < high,
{
    rand::thread_rng().gen_range(low..high)
}

/// Calls `rand::random::<bool>()`: a random boolean; nothing more is stated.
#[verifier::external_body]
pub(crate) fn random_bool() -> bool {
    rand::random::<bool>()
}

} // verus!
