//! Numbers that nobody chooses.

use rand::Rng;
use vstd::prelude::*;

verus! {

/// A number drawn by `rand::random`: any at all, so nothing is said of it.
#[verifier::external_body]
pub(crate) fn random_number() -> (n: u64) {
    rand::random()
}

/// A number drawn by `rand::Rng::gen_range` of the thread's generator: one of those from
/// `low` to `high`, both included. It panics on an empty range, which is left out.
#[verifier::external_body]
pub(crate) fn random_between(low: i64, high: i64) -> (n: i64)
    requires
        low <= high,
    ensures
        low <= n <= high,
{
    rand::thread_rng().gen_range(low..=high)
}

} // verus!
