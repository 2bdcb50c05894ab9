//! Time stamps: nanoseconds on whatever clock the caller feeds in. Only differences matter.

use vstd::prelude::*;

verus! {

pub const NS_PER_SEC: i64 = 1_000_000_000;

/// A stamp split into whole seconds and the nanoseconds left over.
#[derive(Clone, Copy, Debug, PartialEq, Eq, Structural)]
pub struct Time {
    pub sec: i32,
    pub nsec: i32,
}

/// The nanoseconds a split stamp stands for.
pub open spec fn joined(stamp: Time) -> int {
    stamp.sec * NS_PER_SEC + stamp.nsec
}

/// The nanoseconds a split stamp stands for.
pub fn stamp_to_ns(stamp: &Time) -> (ns: i64)
    ensures
        ns == joined(*stamp),
{
    stamp.sec as i64 * NS_PER_SEC + stamp.nsec as i64
}

/// Whole seconds of a stamp, rounded towards zero.
pub open spec fn whole_seconds(timestamp_ns: int) -> int {
    if timestamp_ns >= 0 {
        timestamp_ns / 1_000_000_000
    } else {
        -((-timestamp_ns) / 1_000_000_000)
    }
}

/// The stamp's seconds fit the thirty-two bits that [`Time`] has for them.
pub open spec fn splittable(timestamp_ns: int) -> bool {
    i32::MIN <= whole_seconds(timestamp_ns) <= i32::MAX
}

/// A stamp in its two parts; a negative one has both parts negative or zero. Seconds that do not
/// fit keep their low thirty-two bits.
pub open spec fn split(timestamp_ns: int) -> Time {
    Time {
        sec: whole_seconds(timestamp_ns) as i32,
        nsec: (timestamp_ns - whole_seconds(timestamp_ns) * NS_PER_SEC) as i32,
    }
}

/// Splits a stamp; a negative one has both parts negative or zero. Seconds that do not fit keep
/// their low thirty-two bits.
pub fn to_stamp(timestamp_ns: i64) -> (stamp: Time)
    ensures
        stamp == split(timestamp_ns as int),
{
    if timestamp_ns >= 0 {
        let sec: i64 = timestamp_ns / NS_PER_SEC;
        let nsec: i64 = timestamp_ns % NS_PER_SEC;
        Time { sec: #[verifier::truncate] (sec as i32), nsec: nsec as i32 }
    } else {
        let distance: i128 = -(timestamp_ns as i128);
        let sec: i128 = -(distance / 1_000_000_000);
        let nsec: i128 = -(distance % 1_000_000_000);
        Time { sec: #[verifier::truncate] (sec as i32), nsec: nsec as i32 }
    }
}

/// Law: joining the parts of a split stamp gives the stamp back, as long as its seconds fit.
pub proof fn law_stamp_round_trip(timestamp_ns: int)
    requires
        splittable(timestamp_ns),
    ensures
        joined(split(timestamp_ns)) == timestamp_ns,
{
}

/// `to - from`, held at the ends of the `i64` range.
pub open spec fn span(from: i64, to: i64) -> i64 {
    if to - from > i64::MAX {
        i64::MAX
    } else if to - from < i64::MIN {
        i64::MIN
    } else {
        (to - from) as i64
    }
}

/// The nanoseconds from one stamp to another, held at the ends of the `i64` range.
pub fn span_ns(from: i64, to: i64) -> (ns: i64)
    ensures
        ns == span(from, to),
{
    let difference: i128 = to as i128 - from as i128;
    if difference > i64::MAX as i128 {
        i64::MAX
    } else if difference < i64::MIN as i128 {
        i64::MIN
    } else {
        difference as i64
    }
}

/// One more on an event counter, which stays at its largest value rather than overflow.
pub open spec fn counted(count: u64) -> u64 {
    if count < u64::MAX {
        (count + 1) as u64
    } else {
        u64::MAX
    }
}

/// One more on an event counter, which stays at its largest value rather than overflow.
pub fn count_up(count: u64) -> (r: u64)
    ensures
        r == counted(count),
{
    if count < u64::MAX {
        count + 1
    } else {
        u64::MAX
    }
}

} // verus!
