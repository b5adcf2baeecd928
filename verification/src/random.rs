//! Ids that are drawn at random.

use rand::Rng;
use vstd::prelude::*;

verus! {

/// `rand::Rng::gen` on `rand::thread_rng`, for a `u64`: any value may come back.
#[verifier::external_body]
pub(crate) fn random_u64() -> (r: u64) {
    rand::thread_rng().gen::<u64>()
}

} // verus!
