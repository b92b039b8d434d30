//! Points in time.
use vstd::prelude::*;

verus! {

/// The first second that can be told, since the start of 1970.
pub const FIRST_SECOND: i64 = -8_334_601_228_800;

/// The last second that can be told, since the start of 1970.
pub const LAST_SECOND: i64 = 8_210_266_876_799;

/// Whether a second and the nanoseconds that have gone by in it make a point in
/// time. More than a second's worth of nanoseconds stands for a leap second,
/// which comes at the end of a minute only.
pub open spec fn is_time(secs: int, nanos: int) -> bool {
    &&& FIRST_SECOND <= secs <= LAST_SECOND
    &&& 0 <= nanos < 1_000_000_000 || (nanos < 2_000_000_000 && secs % 60 == 59)
    &&& 0 <= nanos
}

/// A point in time.
#[derive(Debug, Clone, Copy, PartialEq, Eq, Structural)]
pub struct Time {
    secs: i64,
    nanos: u32,
}

impl Time {
    #[verifier::type_invariant]
    spec fn can_be_told(self) -> bool {
        is_time(self.secs as int, self.nanos as int)
    }

    /// The seconds since the start of 1970.
    pub closed spec fn seconds(self) -> int {
        self.secs as int
    }

    /// The nanoseconds that have gone by in the second.
    pub closed spec fn nanoseconds(self) -> int {
        self.nanos as int
    }

    /// The milliseconds since the start of 1970, rounded down.
    pub open spec fn milliseconds(self) -> int {
        self.seconds() * 1000 + self.nanoseconds() / 1_000_000
    }

    /// A point in time, where the numbers make one.
    pub fn new(secs: i64, nanos: u32) -> (time: Option<Time>)
        ensures
            match time {
                Some(time) => is_time(secs as int, nanos as int) && time.seconds() == secs
                    && time.nanoseconds() == nanos,
                None => !is_time(secs as int, nanos as int),
            },
    {
        if secs < FIRST_SECOND || secs > LAST_SECOND || nanos >= 2_000_000_000 {
            return None;
        }
        let from_first: i64 = secs - FIRST_SECOND;
        assert(from_first % 60 == secs % 60) by {
            assert(FIRST_SECOND == -60 * 138_910_020_480);
            vstd::arithmetic::div_mod::lemma_mod_multiples_vanish(
                138_910_020_480,
                secs as int,
                60,
            );
        }
        if nanos >= 1_000_000_000 && from_first % 60 != 59 {
            return None;
        }
        Some(Time { secs, nanos })
    }

    /// The seconds since the start of 1970.
    pub fn secs(&self) -> (secs: i64)
        ensures
            secs == self.seconds(),
    {
        self.secs
    }

    /// The nanoseconds that have gone by in the second.
    pub fn subsec_nanos(&self) -> (nanos: u32)
        ensures
            nanos == self.nanoseconds(),
    {
        self.nanos
    }

    /// The milliseconds since the start of 1970, rounded down.
    pub fn timestamp_millis(&self) -> (millis: i64)
        ensures
            millis == self.milliseconds(),
    {
        proof {
            use_type_invariant(self);
        }
        self.secs * 1000 + (self.nanos / 1_000_000) as i64
    }
}

/// A second and nanoseconds make a point in time where there is such a second,
/// and no more than a second's worth of nanoseconds but at the end of a minute.
pub proof fn points_in_time_are_within_reach(secs: i64, nanos: u32, time: Option<Time>)
    requires
        call_ensures(Time::new, (secs, nanos), time),
    ensures
        time is Some <==> -8_334_601_228_800 <= secs <= 8_210_266_876_799 && (nanos < 1_000_000_000 || (
        nanos < 2_000_000_000 && secs % 60 == 59)),
        time is Some ==> time->0.seconds() == secs && time->0.nanoseconds() == nanos,
{
}

/// The milliseconds of a point in time are those of its seconds and the whole
/// ones of its nanoseconds.
pub proof fn milliseconds_are_rounded_down(time: &Time, millis: i64, secs: i64, nanos: u32)
    requires
        call_ensures(Time::timestamp_millis, (time,), millis),
        call_ensures(Time::secs, (time,), secs),
        call_ensures(Time::subsec_nanos, (time,), nanos),
    ensures
        millis * 1_000_000 <= secs * 1_000_000_000 + nanos < (millis + 1) * 1_000_000,
{
}

} // verus!
