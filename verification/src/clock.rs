use vstd::prelude::*;

verus! {

/// Relies on chrono::Utc::now: the wall clock, as whole seconds since the
/// Unix epoch. Nothing is promised of the value; verified callers state
/// their results relative to whatever instant came back.
#[verifier::external_body]
pub(crate) fn now_seconds() -> i64 {
    chrono::Utc::now().timestamp()
}

} // verus!
