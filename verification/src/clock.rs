//! Points in time, and random distances between them.
use rand::rngs::StdRng;
use vstd::prelude::*;

use crate::random::{draw_u32, draw_u64, rng_state, uniform_draw};

verus! {

/// The seconds of a day.
pub const DAY_SECS: i64 = 86_400;

/// The first second that a calendar date can be given for.
pub const MIN_SECS: i64 = -8_334_601_228_800;

/// The last second that a calendar date can be given for.
pub const MAX_SECS: i64 = 8_210_266_876_799;

/// The longest distance in time, in seconds.
pub const MAX_DISTANCE: i64 = 9_223_372_036_854_775;

/// A point in time: seconds since the beginning of 1970 (UTC), and nanoseconds into the second.
#[derive(Debug, Clone, Copy, PartialEq, Eq, Structural)]
pub struct Timestamp {
    pub secs: i64,
    pub nanos: u32,
}

/// A point in time, without a bound on the seconds.
pub struct Moment {
    pub secs: int,
    pub nanos: u32,
}

impl View for Timestamp {
    type V = Moment;

    open spec fn view(&self) -> Moment {
        Moment { secs: self.secs as int, nanos: self.nanos }
    }
}

impl Moment {
    /// The point in time `offset` seconds before this one.
    pub open spec fn earlier(self, offset: int) -> Moment {
        Moment { secs: self.secs - offset, nanos: self.nanos }
    }
}

/// A distance of up to `max_days` whole days and less than one day more, in seconds: the days are
/// drawn first.
pub open spec fn distance_draw(state: int, max_days: int) -> (int, int) {
    let (days, s1) = uniform_draw(state, 64, 0, max_days);
    let (secs, s2) = uniform_draw(s1, 32, 0, 86_399);
    (days * 86_400 + secs, s2)
}

/// `chrono::Utc::now`: the time that the system clock shows. The clock is read as the time since
/// the beginning of 1970, so it is never before that (a clock set earlier makes the call panic);
/// the year is one that a date can have.
#[verifier::external_body]
pub(crate) fn utc_now() -> (now: Timestamp)
    ensures
        0 <= now.secs <= MAX_SECS,
        now.nanos < 1_000_000_000,
{
    let now = chrono::Utc::now();
    Timestamp { secs: now.timestamp(), nanos: now.timestamp_subsec_nanos() }
}

/// `now` was read from the system clock: it is what a call of `utc_now` gave.
pub closed spec fn is_clock_reading(now: Timestamp) -> bool {
    call_ensures(utc_now, (), now)
}

/// Only a call of `utc_now` makes a reading of the clock.
pub(crate) proof fn law_readings_come_from_the_clock(now: Timestamp)
    ensures
        is_clock_reading(now) <==> call_ensures(utc_now, (), now),
        is_clock_reading(now) ==> 0 <= now.secs <= MAX_SECS && now.nanos < 1_000_000_000,
{
}

/// The time that the system clock shows.
pub fn current_time() -> (now: Timestamp)
    ensures
        is_clock_reading(now),
        0 <= now.secs <= MAX_SECS,
        now.nanos < 1_000_000_000,
{
    utc_now()
}

/// The point in time `offset` seconds before `t`.
pub fn earlier(t: Timestamp, offset: i64) -> (r: Timestamp)
    requires
        MIN_SECS <= t.secs - offset <= MAX_SECS,
    ensures
        r@ == t@.earlier(offset as int),
        r.secs == t.secs - offset,
        r.nanos == t.nanos,
{
    Timestamp { secs: t.secs - offset, nanos: t.nanos }
}

/// A random distance in time of up to `max_days` days and a part of a day, in seconds.
pub fn rand_between_days(rng: &mut StdRng, max_days: i64) -> (distance: i64)
    requires
        0 <= max_days,
        max_days * DAY_SECS + (DAY_SECS - 1) <= MAX_DISTANCE,
    ensures
        (distance as int, rng_state(*final(rng))) == distance_draw(
            rng_state(*old(rng)),
            max_days as int,
        ),
        0 <= distance < (max_days + 1) * DAY_SECS,
        distance as int / 86_400 == uniform_draw(rng_state(*old(rng)), 64, 0, max_days as int).0,
        distance as int % 86_400 == uniform_draw(
            uniform_draw(rng_state(*old(rng)), 64, 0, max_days as int).1,
            32,
            0,
            86_399,
        ).0,
{
    let days: u64 = draw_u64(rng, 0, max_days as u64);
    let secs: u32 = draw_u32(rng, 0, 86_399);
    days as i64 * DAY_SECS + secs as i64
}

/// The seconds of a view are those of the timestamp, and so are the nanoseconds.
pub proof fn law_timestamp_seen_whole(t: Timestamp)
    ensures
        t@.secs == t.secs,
        t@.nanos == t.nanos,
{
}

/// Going back in time twice is going back by both distances at once; going back by nothing changes
/// nothing, and the part of a second is kept.
pub proof fn law_earlier_adds_up(t: Moment, a: int, b: int)
    ensures
        t.earlier(a).earlier(b) == t.earlier(a + b),
        t.earlier(0) == t,
        t.secs - t.earlier(a).secs == a,
        t.earlier(a).nanos == t.nanos,
{
}

/// The two draws of a distance can be read back from it: the whole days are the first, the seconds
/// of the last day the second.
pub proof fn law_distance_reads_back(state: int, max_days: int)
    ensures
        ({
            let days = uniform_draw(state, 64, 0, max_days);
            let secs = uniform_draw(days.1, 32, 0, 86_399);
            let distance = distance_draw(state, max_days);
            &&& distance.1 == secs.1
            &&& 0 <= secs.0 < 86_400 ==> distance.0 / 86_400 == days.0 && distance.0 % 86_400
                == secs.0
        }),
{
}

} // verus!
