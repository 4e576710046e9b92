use vstd::prelude::*;

verus! {

/// Relies on time::precise_time_ns: a reading of a monotonic clock, in
/// nanoseconds. Nothing is promised of the value read.
#[verifier::external_body]
pub(crate) fn precise_time_ns() -> (r: u64) {
    time::precise_time_ns()
}

} // verus!
