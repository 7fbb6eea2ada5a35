//! The wall clock.

use vstd::prelude::*;
use crate::task::Timestamp;

verus! {

/// The current instant, as `time::OffsetDateTime::now_utc` reads it from the
/// system clock and `OffsetDateTime::unix_timestamp_nanos` counts it.
/// Nothing is claimed of the value: two readings may be in any order. The
/// reading fails only where the system clock stands outside the years that
/// `time` can represent.
#[verifier::external_body]
pub(crate) fn now_utc() -> (now: Timestamp) {
    time::OffsetDateTime::now_utc().unix_timestamp_nanos()
}

} // verus!
