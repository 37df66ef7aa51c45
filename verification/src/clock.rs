//! The wall clock, read as nanoseconds since the Unix epoch. Sparkle uses
//! it as its source of chance.

use vstd::prelude::*;
use std::time::{Duration, Instant, SystemTime, SystemTimeError, UNIX_EPOCH};

verus! {

/// `std::time::SystemTime`, a wall-clock reading; opaque here.
#[verifier::external_type_specification]
#[verifier::external_body]
pub struct ExSystemTime(std::time::SystemTime);

/// `std::time::SystemTimeError`, a clock reading before the reference
/// time; opaque here.
#[verifier::external_type_specification]
#[verifier::external_body]
pub struct ExSystemTimeError(std::time::SystemTimeError);

/// `std::time::Instant`, a monotonic clock reading; opaque here.
#[verifier::external_type_specification]
#[verifier::external_body]
pub struct ExInstant(std::time::Instant);

/// Calls `Instant::now`. The result is a reading of the machine's monotonic
/// clock, so nothing is stated of it.
#[verifier::external_body]
pub(crate) fn instant_now() -> (res: Instant) {
    Instant::now()
}

/// Calls `SystemTime::now`. The result is the machine's clock, so nothing is
/// stated of it.
#[verifier::external_body]
fn system_now() -> (res: SystemTime) {
    SystemTime::now()
}

/// Calls `SystemTime::duration_since` against `UNIX_EPOCH`. Its result
/// depends on the clock reading `t`, so nothing is stated of it.
#[verifier::external_body]
fn since_epoch(t: &SystemTime) -> (res: Result<Duration, SystemTimeError>) {
    t.duration_since(UNIX_EPOCH)
}

/// Calls `Duration::as_nanos`. A duration is opaque here, so nothing is
/// stated of the count.
#[verifier::external_body]
fn duration_nanos(d: &Duration) -> (res: u128) {
    d.as_nanos()
}

/// Nanoseconds since the Unix epoch, truncated to 64 bits; 0 when the
/// clock reads earlier than the epoch. Any value may come back.
pub fn now_nanos() -> (res: u64) {
    let t = system_now();
    match since_epoch(&t) {
        Ok(d) => {
            let n = duration_nanos(&d);
            n as u64
        },
        Err(_) => 0,
    }
}

} // verus!
