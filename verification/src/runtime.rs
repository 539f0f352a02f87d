//! The store's two platform effects: fresh identifiers and the clock.

use vstd::prelude::*;

verus! {

/// Relies on `uuid::Uuid::new_v4`: a freshly generated version-4 UUID,
/// taken as its 128-bit value. The result is random, so nothing is
/// promised of it; callers must handle a colliding identifier.
#[verifier::external_body]
pub(crate) fn fresh_id() -> u128 {
    uuid::Uuid::new_v4().as_u128()
}

/// Relies on `chrono::Utc::now`: the current time as whole seconds
/// since the Unix epoch. Time-dependent, so nothing is promised of
/// the value.
#[verifier::external_body]
pub fn now_ts() -> i64 {
    chrono::Utc::now().timestamp()
}

} // verus!
