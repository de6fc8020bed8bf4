use vstd::prelude::*;

verus! {

/// Relies on chrono's `Utc::now` for the wall clock. The value depends on
/// when the call happens, so nothing is assumed about it: callers record
/// it and every contract downstream holds for any timestamp.
#[verifier::external_body]
pub fn current_timestamp() -> i64 {
    chrono::Utc::now().timestamp()
}

} // verus!
