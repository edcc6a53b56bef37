//! Instants, and the arithmetic that turns a delay into the instant at which a reminder
//! is due. Times of day are read in one fixed zone, Europe/Paris; instants are UTC.

use crate::duration::{Clock, Delay, Unit};
use chrono::{TimeZone, Timelike};
use chrono_tz::Europe::Paris;
use vstd::prelude::*;

verus! {

/// An instant: whole seconds since 1970-01-01T00:00:00 UTC, and the nanoseconds into
/// that second.
#[derive(Clone, Copy, Debug, PartialEq, Eq, Structural)]
pub struct Timestamp {
    pub secs: i64,
    pub nanos: u32,
}

impl Timestamp {
    /// The nanoseconds stay within their second.
    pub open spec fn wf(self) -> bool {
        self.nanos < 1_000_000_000
    }

    /// The instant as nanoseconds since the epoch.
    pub open spec fn as_nanos(self) -> int {
        self.secs * 1_000_000_000 + self.nanos
    }

    /// `self` is `other` or later.
    pub open spec fn reached(self, other: Timestamp) -> bool {
        self.secs > other.secs || (self.secs == other.secs && self.nanos >= other.nanos)
    }

    /// Whether `self` is `other` or later.
    pub fn has_reached(&self, other: &Timestamp) -> (b: bool)
        ensures
            b == self.reached(*other),
    {
        self.secs > other.secs || (self.secs == other.secs && self.nanos >= other.nanos)
    }

    /// The instant `seconds` after `self`, unless it is out of range.
    pub fn plus_seconds(&self, seconds: i64) -> (r: Option<Timestamp>)
        ensures
            r == shifted(*self, seconds as int),
    {
        match self.secs.checked_add(seconds) {
            Some(secs) => Some(Timestamp { secs, nanos: self.nanos }),
            None => None,
        }
    }
}

/// On well-formed instants, `reached` is the order of the instants.
pub proof fn lemma_reached_is_order(a: Timestamp, b: Timestamp)
    requires
        a.wf(),
        b.wf(),
    ensures
        a.reached(b) <==> a.as_nanos() >= b.as_nanos(),
        a.reached(b) || b.reached(a),
{
}

/// The instant `seconds` after `t`, with the same nanoseconds; none where the seconds
/// leave the range of the type.
pub open spec fn shifted(t: Timestamp, seconds: int) -> Option<Timestamp> {
    if i64::MIN <= t.secs + seconds <= i64::MAX {
        Some(Timestamp { secs: (t.secs + seconds) as i64, nanos: t.nanos })
    } else {
        None
    }
}

/// The seconds in one unit.
pub open spec fn unit_seconds(unit: Unit) -> int {
    match unit {
        Unit::Minutes => 60,
        Unit::Hours => 3600,
        Unit::Days => 86400,
    }
}

/// What `with_hour` gives for the instant `(secs, nanos)` read in Europe/Paris: the
/// instant, as seconds and nanoseconds, with the same local day, minute, second and
/// nanosecond and the hour `hour`; none where the instant or the hour is out of range,
/// or the zone has no such local time, or two.
pub uninterp spec fn zoned_with_hour(secs: int, nanos: int, hour: int) -> Option<(int, int)>;

/// What `with_minute` gives for the instant `(secs, nanos)` read in Europe/Paris: the
/// instant, as seconds and nanoseconds, with the same local day, hour, second and
/// nanosecond and the minute `minute`; none where the instant or the minute is out of
/// range, or the zone has no such local time, or two.
pub uninterp spec fn zoned_with_minute(secs: int, nanos: int, minute: int) -> Option<(int, int)>;

/// Calls `with_hour` of `chrono::Timelike` on the instant `t`, made a date and time of
/// the zone `chrono_tz::Europe::Paris` by `TimeZone::timestamp_opt`. The contract gives
/// the result a name and says nothing more of it: nothing of it is proved here.
#[verifier::external_body]
fn with_hour_in_zone(t: Timestamp, hour: u32) -> (r: Option<(i64, u32)>)
    ensures
        match r {
            Some(p) => zoned_with_hour(t.secs as int, t.nanos as int, hour as int) == Some(
                (p.0 as int, p.1 as int),
            ),
            None => zoned_with_hour(t.secs as int, t.nanos as int, hour as int) is None,
        },
{
    let local = Paris.timestamp_opt(t.secs, t.nanos).single()?;
    let moved = local.with_hour(hour)?;
    Some((moved.timestamp(), moved.timestamp_subsec_nanos()))
}

/// Calls `with_minute` of `chrono::Timelike` on the instant `t`, made a date and time
/// of the zone `chrono_tz::Europe::Paris` by `TimeZone::timestamp_opt`. The contract
/// gives the result a name and says nothing more of it: nothing of it is proved here.
#[verifier::external_body]
fn with_minute_in_zone(t: Timestamp, minute: u32) -> (r: Option<(i64, u32)>)
    ensures
        match r {
            Some(p) => zoned_with_minute(t.secs as int, t.nanos as int, minute as int) == Some(
                (p.0 as int, p.1 as int),
            ),
            None => zoned_with_minute(t.secs as int, t.nanos as int, minute as int) is None,
        },
{
    let local = Paris.timestamp_opt(t.secs, t.nanos).single()?;
    let moved = local.with_minute(minute)?;
    Some((moved.timestamp(), moved.timestamp_subsec_nanos()))
}

/// A pair of seconds and nanoseconds as a well-formed instant, if it is one.
pub open spec fn instant_of(p: Option<(int, int)>) -> Option<Timestamp> {
    match p {
        Some((secs, nanos)) => if i64::MIN <= secs <= i64::MAX && 0 <= nanos < 1_000_000_000 {
            Some(Timestamp { secs: secs as i64, nanos: nanos as u32 })
        } else {
            None
        },
        None => None,
    }
}

/// The instant `t` moved to the time of day `clock` in the zone, its hour first and then
/// its minute.
pub open spec fn at_clock(t: Timestamp, clock: Clock) -> Option<Timestamp> {
    match instant_of(zoned_with_hour(t.secs as int, t.nanos as int, clock.hour as int)) {
        Some(h) => instant_of(zoned_with_minute(h.secs as int, h.nanos as int, clock.minute as int)),
        None => None,
    }
}

/// The instant at which a delay that starts at `now` ends: `now` plus the amount in
/// units, and for a delay with a time of day that instant moved to the time of day.
pub open spec fn trigger_at(delay: Delay, now: Timestamp) -> Option<Timestamp> {
    match shifted(now, delay.amount * unit_seconds(delay.unit)) {
        Some(t) => match delay.clock {
            None => Some(t),
            Some(clock) => at_clock(t, clock),
        },
        None => None,
    }
}

/// Moves the instant `t` to the time of day `clock` in the zone. Gives `None` where the
/// zone has no such local time on that day, or two.
pub fn move_to_clock(t: Timestamp, clock: Clock) -> (r: Option<Timestamp>)
    ensures
        r == at_clock(t, clock),
        r matches Some(m) ==> m.wf(),
{
    let h = match with_hour_in_zone(t, clock.hour as u32) {
        Some((secs, nanos)) => {
            if nanos < 1_000_000_000 {
                Timestamp { secs, nanos }
            } else {
                return None;
            }
        },
        None => {
            return None;
        },
    };
    match with_minute_in_zone(h, clock.minute as u32) {
        Some((secs, nanos)) => {
            if nanos < 1_000_000_000 {
                Some(Timestamp { secs, nanos })
            } else {
                None
            }
        },
        None => None,
    }
}

/// The instant at which `delay`, started at `now`, ends.
pub fn extract_date(delay: &Delay, now: Timestamp) -> (r: Option<Timestamp>)
    ensures
        r == trigger_at(*delay, now),
        now.wf() ==> (r matches Some(t) ==> t.wf()),
        delay.clock is None ==> (r is Some <==> now.secs + delay.amount * unit_seconds(delay.unit)
            <= i64::MAX),
{
    let unit: i64 = match delay.unit {
        Unit::Minutes => 60,
        Unit::Hours => 3600,
        Unit::Days => 86400,
    };
    let seconds: i64 = (delay.amount as i64) * unit;
    assert(seconds == delay.amount * unit_seconds(delay.unit));
    match now.plus_seconds(seconds) {
        Some(t) => match delay.clock {
            None => Some(t),
            Some(clock) => move_to_clock(t, clock),
        },
        None => None,
    }
}

/// A delay without a time of day ends the amount of units after it starts: thirty
/// minutes end 1800 seconds after `now`, two hours 7200, three days 259200.
pub proof fn lemma_plain_delay(amount: u16, unit: Unit, now: Timestamp)
    requires
        now.secs + amount * unit_seconds(unit) <= i64::MAX,
    ensures
        trigger_at(Delay { amount, unit, clock: None }, now) == Some(
            Timestamp { secs: (now.secs + amount * unit_seconds(unit)) as i64, nanos: now.nanos },
        ),
        trigger_at(Delay { amount, unit, clock: None }, now)->0.reached(now),
{
}

} // verus!
