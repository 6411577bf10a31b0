//! The clock the engine stamps inserted rows with.

use vstd::prelude::*;

use crate::value::Timestamp;

verus! {

/// Reads the current UTC time with `chrono::Utc::now` and takes the instant
/// apart with `DateTime::timestamp` and `DateTime::timestamp_subsec_nanos`.
///
/// The instant differs from call to call, so all that is claimed is what
/// holds of each: chrono builds it from a duration since the Unix epoch,
/// whose sub-second part is below one second. chrono gives up, and this
/// function does not return, where the system clock reads before the Unix
/// epoch.
#[verifier::external_body]
pub(crate) fn utc_now() -> (r: Timestamp)
    ensures
        r.nanos < 1_000_000_000,
{
    let now = chrono::Utc::now();
    Timestamp { seconds: now.timestamp(), nanos: now.timestamp_subsec_nanos() }
}

} // verus!
