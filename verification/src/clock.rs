//! The wall clock and durations in microseconds.

use vstd::prelude::*;

verus! {

/// Microseconds in a second.
pub const MICROS_PER_SEC: i64 = 1000000;

/// The current time in microseconds since the Unix epoch
/// (`chrono::Utc::now().timestamp_micros()`).
///
/// Trusted: nothing is claimed of the value; it depends on the clock.
#[verifier::external_body]
pub(crate) fn now_micros() -> (t: i64) {
    chrono::Utc::now().timestamp_micros()
}

/// Whole seconds from `from` to `to`, truncated toward zero (as
/// `TimeDelta::num_seconds`).
pub open spec fn seconds_between(from: i64, to: i64) -> int {
    let d = to as int - from as int;
    if d >= 0 {
        d / 1000000
    } else {
        -((-d) / 1000000)
    }
}

/// Whole seconds from `from` to `to`, truncated toward zero.
pub fn elapsed_seconds(from: i64, to: i64) -> (r: i64)
    ensures
        r as int == seconds_between(from, to),
{
    let d: i128 = (to as i128) - (from as i128);
    if d >= 0 {
        let q: i128 = d / 1000000;
        assert(q <= 0x7fff_ffff_ffff_ffffi128) by (nonlinear_arith)
            requires
                q == d / 1000000,
                0 <= d <= 0xffff_ffff_ffff_ffffi128;
        q as i64
    } else {
        let e: i128 = -d;
        let q: i128 = e / 1000000;
        assert(q <= 0x7fff_ffff_ffff_ffffi128) by (nonlinear_arith)
            requires
                q == e / 1000000,
                0 <= e <= 0xffff_ffff_ffff_ffffi128;
        -(q as i64)
    }
}

/// The seconds left until `deadline`, never negative.
pub open spec fn remaining_seconds(deadline: i64, now: i64) -> int {
    let s = seconds_between(now, deadline);
    if s > 0 { s } else { 0 }
}

/// The seconds left until `deadline`, never negative.
pub fn seconds_left(deadline: i64, now: i64) -> (r: i64)
    ensures
        r as int == remaining_seconds(deadline, now),
{
    let s = elapsed_seconds(now, deadline);
    if s > 0 { s } else { 0 }
}

/// `t` moved `secs` seconds later, held at the latest representable time.
pub open spec fn later_by(t: i64, secs: u64) -> i64 {
    let x = t as int + secs as int * 1000000;
    if x > i64::MAX { i64::MAX } else { x as i64 }
}

/// `t` moved `secs` seconds later, held at the latest representable time.
pub fn add_seconds(t: i64, secs: u64) -> (r: i64)
    ensures
        r == later_by(t, secs),
{
    let x: i128 = (t as i128) + (secs as i128) * 1000000;
    if x > 0x7fff_ffff_ffff_ffffi128 {
        0x7fff_ffff_ffff_ffffi64
    } else {
        x as i64
    }
}

} // verus!
