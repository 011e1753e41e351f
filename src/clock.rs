//! Turn timing on plain millisecond timestamps.
use vstd::prelude::*;

verus! {

/// `x` held to the range of `i64`.
pub open spec fn clamp_i64(x: int) -> i64 {
    if x > i64::MAX {
        i64::MAX
    } else if x < i64::MIN {
        i64::MIN
    } else {
        x as i64
    }
}

/// A turn start moved later by `secs` seconds, saturating at the ends of the range.
pub open spec fn extended(start: i64, secs: i64) -> i64 {
    clamp_i64(start + secs * 1000)
}

/// More than `length` seconds have passed between `start` and `now`.
pub open spec fn expired(start: i64, now: i64, length: i64) -> bool {
    now - start > length * 1000
}

/// Relies on `chrono::Utc::now` and `DateTime::timestamp_millis`: the
/// current time in milliseconds since the Unix epoch. Nothing is promised of it.
#[verifier::external_body]
pub(crate) fn now_millis() -> (r: i64) {
    chrono::Utc::now().timestamp_millis()
}

/// The turn start moved later by `secs` seconds.
pub fn extend(start: i64, secs: i64) -> (r: i64)
    ensures
        r == extended(start, secs),
{
    let x: i128 = start as i128 + secs as i128 * 1000;
    if x > i64::MAX as i128 {
        i64::MAX
    } else if x < i64::MIN as i128 {
        i64::MIN
    } else {
        x as i64
    }
}

/// Whether a turn that started at `start` and lasts `length` seconds is over at `now`.
pub fn has_expired(start: i64, now: i64, length: i64) -> (r: bool)
    ensures
        r == expired(start, now, length),
{
    (now as i128) - (start as i128) > (length as i128) * 1000
}

} // verus!
