//! Content fingerprints.
use fxhash::FxHasher64;
use std::hash::Hash;
use std::hash::Hasher;
use vstd::prelude::*;

verus! {

/// Feeds `value` to a fresh `fxhash::FxHasher64` and returns what
/// `finish` reports. The digest depends on how the value's type feeds a
/// hasher and on the machine's byte order, so nothing is claimed of it.
#[verifier::external_body]
pub(crate) fn fingerprint<H: Hash>(value: &H) -> (digest: u64) {
    let mut state = FxHasher64::default();
    value.hash(&mut state);
    state.finish()
}

} // verus!
