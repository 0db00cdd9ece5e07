//! Small helpers shared by the schedule engine: timestamp ordering and
//! second-of-day arithmetic.
//!
//! A timestamp is a number of seconds, in the engine's display timezone,
//! since the engine's epoch. A date is the number of whole days since that
//! epoch, so all day-boundary arithmetic is plain integer division by the
//! number of seconds in a day.

use vstd::prelude::*;

verus! {

/// Seconds in one calendar day.
pub const SECS_PER_DAY: i64 = 86400;

/// Largest timestamp the engine works with (about 2.7 million years past
/// the epoch, far beyond any calendar range the application displays).
/// Keeping timestamps inside `[0, TS_MAX]` makes every sum and difference
/// of a timestamp and a handful of days fit comfortably in an `i64`.
pub const TS_MAX: i64 = 0x4000_0000_0000;

/// A timestamp is valid when it lies inside the engine's working range.
pub open spec fn ts_valid(t: i64) -> bool {
    0 <= t <= TS_MAX
}

/// The date (day number since the epoch) a timestamp falls on.
pub open spec fn day_of(t: int) -> int {
    t / (SECS_PER_DAY as int)
}

/// Seconds elapsed since the midnight that starts the timestamp's day.
pub open spec fn second_of_day(t: int) -> int {
    t % (SECS_PER_DAY as int)
}

/// Executable form of [`day_of`].
pub fn day_of_ts(t: i64) -> (d: i64)
    requires
        t >= 0,
    ensures
        d == day_of(t as int),
        0 <= d <= t,
{
    ((t as u64) / (SECS_PER_DAY as u64)) as i64
}

/// Executable form of [`second_of_day`].
pub fn second_of_day_ts(t: i64) -> (s: i64)
    requires
        t >= 0,
    ensures
        s == second_of_day(t as int),
        0 <= s < SECS_PER_DAY,
{
    ((t as u64) % (SECS_PER_DAY as u64)) as i64
}

/// Two timestamps belong to the same calendar day. As a special case the
/// later of the two may fall exactly on the midnight that ends the earlier
/// one's day, so that an event ending at midnight still counts as a
/// single-day event.
pub open spec fn same_day(t1: int, t2: int) -> bool {
    let a = if t1 <= t2 {
        t1
    } else {
        t2
    };
    let b = if t1 <= t2 {
        t2
    } else {
        t1
    };
    day_of(a) == day_of(b) || b == (day_of(a) + 1) * (SECS_PER_DAY as int)
}

/// Swap the two times when they are out of order; report whether a swap
/// happened. Mirrors the gesture code's need to know which endpoint the
/// user is dragging.
pub fn reorder_times(t1: &mut i64, t2: &mut i64) -> (swapped: bool)
    ensures
        swapped == (*old(t1) >= *old(t2)),
        !swapped ==> *final(t1) == *old(t1) && *final(t2) == *old(t2),
        swapped ==> *final(t1) == *old(t2) && *final(t2) == *old(t1),
{
    if *t1 < *t2 {
        return false;
    }
    let tmp: i64 = *t1;
    *t1 = *t2;
    *t2 = tmp;
    true
}

/// Decide whether the two timestamps lie on the same calendar day (with the
/// midnight allowance described at [`same_day`]).
pub fn on_the_same_day(t1: i64, t2: i64) -> (r: bool)
    requires
        ts_valid(t1),
        ts_valid(t2),
    ensures
        r == same_day(t1 as int, t2 as int),
{
    let a: i64 = if t1 <= t2 {
        t1
    } else {
        t2
    };
    let b: i64 = if t1 <= t2 {
        t2
    } else {
        t1
    };
    if day_of_ts(a) == day_of_ts(b) {
        return true;
    }
    let next_midnight: i64 = (day_of_ts(a) + 1) * SECS_PER_DAY;
    b == next_midnight
}

} // verus!
