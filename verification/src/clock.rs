//! The wall clock, read as whole seconds since the Unix epoch.

use core::time::Duration;
use std::time::{SystemTime, UNIX_EPOCH};
use vstd::prelude::*;

verus! {

#[verifier::external_type_specification]
#[verifier::external_body]
pub struct ExSystemTime(std::time::SystemTime);

/// std's `SystemTime::now`. Trusted: nothing is stated of the time it
/// reads.
pub assume_specification[std::time::SystemTime::now]() -> std::time::SystemTime;

/// std's `Duration::as_secs`. Trusted: nothing is stated of the result.
pub assume_specification[core::time::Duration::as_secs](d: &core::time::Duration) -> u64;

/// std's `Duration::subsec_nanos`. Trusted: the result is below one
/// billion, as std documents.
pub assume_specification[core::time::Duration::subsec_nanos](d: &core::time::Duration) -> (n: u32)
    ensures
        n < 1_000_000_000,
;

/// How far `t` lies from the Unix epoch (std `SystemTime::duration_since`
/// with `UNIX_EPOCH`): `Ok` with the distance for a time at or after the
/// epoch, `Err` with the distance (`SystemTimeError::duration`) for a time
/// before it. Trusted: nothing is stated of the distance.
#[verifier::external_body]
fn since_epoch(t: &SystemTime) -> Result<Duration, Duration> {
    match t.duration_since(UNIX_EPOCH) {
        Ok(d) => Ok(d),
        Err(e) => Err(e.duration()),
    }
}

/// The time `secs` seconds and `nanos` nanoseconds after the epoch (or
/// before it, where `before_epoch` holds), in whole seconds rounded down.
pub open spec fn unix_seconds(before_epoch: bool, secs: int, nanos: int) -> int {
    if !before_epoch {
        secs
    } else if nanos == 0 {
        -secs
    } else {
        -secs - 1
    }
}

/// `x` held within the range of `i64`.
pub open spec fn clamp_i64(x: int) -> int {
    if x < i64::MIN {
        i64::MIN as int
    } else if x > i64::MAX {
        i64::MAX as int
    } else {
        x
    }
}

/// The timestamp of a clock reading (see `unix_seconds`), held within the
/// range of `i64`.
pub fn unix_timestamp(before_epoch: bool, secs: u64, nanos: u32) -> (ts: i64)
    ensures
        ts == clamp_i64(unix_seconds(before_epoch, secs as int, nanos as int)),
{
    if !before_epoch {
        if secs > i64::MAX as u64 {
            i64::MAX
        } else {
            secs as i64
        }
    } else if secs > i64::MAX as u64 {
        i64::MIN
    } else if nanos == 0 {
        -(secs as i64)
    } else {
        -(secs as i64) - 1
    }
}

/// The current time in whole seconds since the Unix epoch (rounded down,
/// negative before the epoch). Which time it is depends on the clock.
pub fn clock_timestamp() -> i64 {
    let now = SystemTime::now();
    match since_epoch(&now) {
        Ok(d) => unix_timestamp(false, d.as_secs(), d.subsec_nanos()),
        Err(d) => unix_timestamp(true, d.as_secs(), d.subsec_nanos()),
    }
}

} // verus!
