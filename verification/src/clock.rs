//! The wall clock.

use vstd::prelude::*;

verus! {

/// The latest instant chrono represents, December 31, 262142 CE, 23:59:59.999 UTC, in
/// milliseconds since the Unix epoch.
pub const LATEST_INSTANT_MS: i64 = 8_210_266_876_799_999;

/// Calls `chrono::Utc::now` and takes its milliseconds since the Unix epoch. The value
/// depends on the time; claimed is only where it lies: not before the epoch, since the
/// call fails (by the source) on a clock set before it, and not after the latest instant
/// chrono represents, since the source unwraps `DateTime::from_timestamp`.
#[verifier::external_body]
pub(crate) fn now_millis() -> (r: i64)
    ensures
        0 <= r <= LATEST_INSTANT_MS,
{
    chrono::Utc::now().timestamp_millis()
}

} // verus!
