//! The one place where chance enters the library.
use vstd::prelude::*;

verus! {

/// Thirty-two bits from `rand::random::<u32>`, which takes the next word of
/// the calling thread's generator. Nothing is claimed of the bits: any word
/// may come back, and two draws need not agree. The generator is seeded from
/// the system on a thread's first draw and gives up with a panic where the
/// system has no entropy to offer; no argument of the caller has a part in
/// that.
#[verifier::external_body]
pub(crate) fn random_bits() -> (r: u32) {
    rand::random::<u32>()
}

} // verus!
