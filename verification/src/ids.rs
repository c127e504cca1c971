//! Identifiers: event sequence numbers and incident identifiers.

use std::sync::atomic::{AtomicU64, Ordering};
use vstd::prelude::*;

verus! {

/// The next value of the event sequence shared by the watcher, the canary poll and the
/// scorer. Other tasks draw from the same sequence, so nothing is known of the value.
pub fn next_event_id(seq: &AtomicU64) -> u64 {
    seq.fetch_add(1, Ordering::Relaxed)
}

/// Calls `uuid::Uuid::new_v4` and takes the identifier's 128-bit value. Claimed, as the
/// source shows: the version nibble (bits 76 to 79) is 4 and the variant bits (62 and 63)
/// are `10`; the other bits are random.
#[verifier::external_body]
pub(crate) fn new_incident_id() -> (r: u128)
    ensures
        (r >> 76u128) % 16 == 4,
        (r >> 62u128) % 4 == 2,
{
    uuid::Uuid::new_v4().as_u128()
}

} // verus!
