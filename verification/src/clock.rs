//! Wall-clock time and the time windows used by the queries.
use vstd::prelude::*;

verus! {

/// Milliseconds in one minute.
pub const MINUTE_MILLIS: i64 = 60_000;

/// Milliseconds in one hour.
pub const HOUR_MILLIS: i64 = 3_600_000;

/// The current time in milliseconds since the Unix epoch.
///
/// Calls `chrono::Utc::now` and converts the result with
/// `DateTime::timestamp_millis`. Nothing is claimed about the value: it is
/// whatever the system clock reports at the moment of the call.
#[verifier::external_body]
pub(crate) fn now_millis() -> (now: i64) {
    chrono::Utc::now().timestamp_millis()
}

/// The instant that lies `amount` units of `unit` milliseconds before `now`.
/// It is an unbounded integer, so it exists for every `amount`, negative
/// ones included (the instant then lies after `now`).
pub open spec fn window_start(now: i64, amount: i64, unit: i64) -> int {
    now - amount * unit
}

/// Computes [`window_start`]. The result is wide enough for every input.
pub fn window_start_of(now: i64, amount: i64, unit: i64) -> (start: i128)
    ensures
        start == window_start(now, amount, unit),
{
    let wide_amount: i128 = amount as i128;
    let wide_unit: i128 = unit as i128;
    assert(-0x4000_0000_0000_0000_0000_0000_0000_0000 <= wide_amount * wide_unit
        <= 0x4000_0000_0000_0000_0000_0000_0000_0000) by (nonlinear_arith)
        requires
            -0x8000_0000_0000_0000 <= wide_amount <= 0x8000_0000_0000_0000,
            -0x8000_0000_0000_0000 <= wide_unit <= 0x8000_0000_0000_0000,
    ;
    let span: i128 = wide_amount * wide_unit;
    (now as i128) - span
}

} // verus!
