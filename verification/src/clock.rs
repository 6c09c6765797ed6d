//! The wall clock, as the ledger stamps its entries.
use std::time::SystemTime;
use vstd::prelude::*;

verus! {

/// A point in time as the standard library measures it. Nothing here looks
/// inside one: a timestamp is taken, stored and handed back.
#[verifier::external_type_specification]
#[verifier::external_body]
pub struct ExSystemTime(SystemTime);

/// Reads the system clock through `SystemTime::now`. Nothing is claimed of
/// the value: it differs from call to call.
#[verifier::external_body]
pub(crate) fn now() -> (when: SystemTime) {
    SystemTime::now()
}

} // verus!
