//! Conversion of the platform's native process start time into a
//! universal timestamp.
//!
//! The platform reports times as a 64-bit count of 100-nanosecond ticks
//! since its own epoch (1601-01-01), split into two 32-bit halves.  The
//! universal form used throughout this library is a signed nanosecond
//! count relative to the Unix epoch (1970-01-01).

use vstd::prelude::*;

verus! {

/// Nanoseconds between the platform epoch (1601-01-01) and the Unix
/// epoch (1970-01-01): 11_644_473_600 seconds.
pub const EPOCH_OFFSET_NANOS: i128 = 11_644_473_600_000_000_000;

/// A point in time, as nanoseconds relative to the Unix epoch.
#[derive(Clone, Copy, Debug, PartialEq, Eq)]
pub struct Timestamp {
    pub unix_nanos: i128,
}

/// One native time quantity: a 64-bit tick count split into two 32-bit
/// halves, exactly as the platform hands it out.
#[derive(Clone, Copy, Debug, PartialEq, Eq)]
pub struct FileTicks {
    pub low: u32,
    pub high: u32,
}

/// The 64-bit tick count encoded by the two halves.
pub open spec fn spec_ticks(t: FileTicks) -> int {
    t.high * 0x1_0000_0000 + t.low
}

/// The timestamp a tick count denotes: ticks are 100 ns each, counted
/// from the platform epoch.
pub open spec fn spec_ticks_to_unix_nanos(t: FileTicks) -> int {
    spec_ticks(t) * 100 - EPOCH_OFFSET_NANOS
}

/// Combines the two halves of a native time quantity and rebases it
/// from the platform epoch to the Unix epoch.
pub fn ticks_to_timestamp(t: FileTicks) -> (r: Timestamp)
    ensures
        r.unix_nanos == spec_ticks_to_unix_nanos(t),
{
    let ticks: u64 = (t.high as u64) * 0x1_0000_0000u64 + (t.low as u64);
    let nanos: i128 = (ticks as i128) * 100 - EPOCH_OFFSET_NANOS;
    Timestamp { unix_nanos: nanos }
}

} // verus!
