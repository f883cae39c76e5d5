use vstd::prelude::*;

verus! {

/// Relies on chrono::Utc::now and DateTime::timestamp: the current instant in Unix
/// seconds. Nothing is promised of its value.
#[verifier::external_body]
pub fn current_time() -> (r: i64) {
    chrono::Utc::now().timestamp()
}

} // verus!
