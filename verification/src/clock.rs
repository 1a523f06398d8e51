//! Wall-clock readings, taken through chrono.  Every reading depends on the
//! system clock, so the wrappers promise nothing about the values; all logic
//! that consumes them is verified for every possible reading.

use vstd::prelude::*;

verus! {

/// Relies on chrono's `Local::now` and `DateTime::timestamp_nanos_opt`:
/// nanoseconds since the Unix epoch by the system clock, where representable.
#[verifier::external_body]
fn clock_nanos() -> (r: Option<i64>) {
    chrono::Local::now().timestamp_nanos_opt()
}

/// Relies on chrono's `Local::now` and `DateTime::timestamp`: whole seconds
/// since the Unix epoch by the system clock.
#[verifier::external_body]
fn clock_seconds() -> (r: i64) {
    chrono::Local::now().timestamp()
}

/// Relies on chrono's `Local::now` and `DateTime::format` with `"%Y-%m-%d"`:
/// the local calendar date rendered as a string, the representation this
/// library compares to detect day boundaries.
#[verifier::external_body]
fn clock_date_string() -> (r: String) {
    chrono::Local::now().format("%Y-%m-%d").to_string()
}

/// The current time in whole seconds since the Unix epoch, clamped to zero
/// for clocks set before the epoch.
pub(crate) fn now_epoch_seconds() -> u64 {
    let t = clock_seconds();
    if t >= 0 {
        t as u64
    } else {
        0
    }
}

/// The current local calendar date as a string.
pub(crate) fn today_string() -> String {
    clock_date_string()
}

/// A high-resolution timestamp used as the raw material for fresh item ids;
/// zero when the clock cannot provide one.
pub(crate) fn stamp_nanos() -> u64 {
    match clock_nanos() {
        Some(t) => if t >= 0 {
            t as u64
        } else {
            0
        },
        None => 0,
    }
}

} // verus!
