//! Points in time in UTC.

use vstd::prelude::*;

verus! {

/// The first second that a calendar date can be given for, in the year -262143.
pub const FIRST_SECOND: i64 = -8334601228800;

/// The last second that a calendar date can be given for, in the year 262142.
pub const LAST_SECOND: i64 = 8210266876799;

/// The nanoseconds of one second.
pub const NANOS_PER_SECOND: u32 = 1_000_000_000;

/// A point in time: whole seconds since the start of 1970, and nanoseconds on top of them.
#[derive(Clone, Copy, Debug, PartialEq, Eq)]
pub struct Timestamp {
    pub secs: i64,
    pub nanos: u32,
}

impl Timestamp {
    /// Whether a calendar date can be given for this point in time.
    pub open spec fn valid(self) -> bool {
        FIRST_SECOND <= self.secs <= LAST_SECOND && self.nanos < NANOS_PER_SECOND
    }

    /// Whether this point in time is not before `other`.
    pub open spec fn not_before(self, other: Timestamp) -> bool {
        self.secs > other.secs || (self.secs == other.secs && self.nanos >= other.nanos)
    }

    /// Whether a calendar date can be given for this point in time.
    pub fn is_valid(&self) -> (r: bool)
        ensures
            r == self.valid(),
    {
        FIRST_SECOND <= self.secs && self.secs <= LAST_SECOND && self.nanos < NANOS_PER_SECOND
    }

    /// Whether this point in time is not before `other`.
    pub fn is_not_before(&self, other: &Timestamp) -> (r: bool)
        ensures
            r == self.not_before(*other),
    {
        self.secs > other.secs || (self.secs == other.secs && self.nanos >= other.nanos)
    }
}

/// The text that chrono's `DateTime::to_rfc3339` gives for a point in time in UTC.
pub uninterp spec fn rfc3339(secs: i64, nanos: u32) -> Seq<char>;

/// Calls chrono's `DateTime::to_rfc3339` on the point in time that `DateTime::from_timestamp`
/// makes of seconds and nanoseconds. It makes one of every pair in the range required here;
/// the text itself is only named.
#[verifier::external_body]
fn format_rfc3339(secs: i64, nanos: u32) -> (r: Option<String>)
    requires
        (Timestamp { secs, nanos }).valid(),
    ensures
        r is Some,
        r->0@ == rfc3339(secs, nanos),
{
    chrono::DateTime::from_timestamp(secs, nanos).map(|t| t.to_rfc3339())
}

/// Calls chrono's `TimeDelta::try_minutes` and gives its length in seconds. It refuses what
/// would not fit the milliseconds of a signed 64-bit number.
#[verifier::external_body]
fn minutes_as_seconds(minutes: i64) -> (r: Option<i64>)
    ensures
        r is Some <==> -9223372036854775 <= minutes * 60 <= 9223372036854775,
        r is Some ==> r->0 == minutes * 60,
{
    chrono::TimeDelta::try_minutes(minutes).map(|d| d.num_seconds())
}

/// Calls chrono's `DateTime::checked_sub_signed` on the point in time that
/// `DateTime::from_timestamp` makes of seconds and nanoseconds, with a difference of whole
/// seconds. It fails exactly where no calendar date can be given for the result.
#[verifier::external_body]
fn seconds_before(secs: i64, nanos: u32, by: i64) -> (r: Option<(i64, u32)>)
    requires
        (Timestamp { secs, nanos }).valid(),
        -9223372036854775 <= by <= 9223372036854775,
    ensures
        r is Some <==> FIRST_SECOND <= secs - by <= LAST_SECOND,
        r is Some ==> r->0 == ((secs - by) as i64, nanos),
{
    let t = chrono::DateTime::from_timestamp(secs, nanos)?;
    let earlier = t.checked_sub_signed(chrono::TimeDelta::try_seconds(by)?)?;
    Some((earlier.timestamp(), earlier.timestamp_subsec_nanos()))
}

/// The point in time `minutes` before `now`, where a calendar date can be given for it.
pub open spec fn minutes_before(now: Timestamp, minutes: i64) -> Option<Timestamp> {
    let secs = now.secs - minutes * 60;
    if FIRST_SECOND <= secs <= LAST_SECOND {
        Some(Timestamp { secs: secs as i64, nanos: now.nanos })
    } else {
        None
    }
}

/// So many minutes before a point in time are sixty seconds each, on the nanosecond; a date can
/// be given for them from the first second of the year -262143 to the last of 262142.
pub proof fn law_minutes_have_sixty_seconds(now: Timestamp, minutes: i64)
    ensures
        minutes_before(now, minutes) matches Some(t) ==> t.secs == now.secs - 60 * minutes
            && t.nanos == now.nanos,
        minutes_before(now, minutes) is Some <==> -8334601228800 <= now.secs - 60 * minutes
            <= 8210266876799,
{
}

/// A calendar date can be given for the years from -262143 to 262142, and for up to a second of
/// nanoseconds.
pub proof fn law_dates_can_be_given(t: Timestamp)
    ensures
        t.valid() <==> -8334601228800 <= t.secs <= 8210266876799 && t.nanos < 1_000_000_000,
{
}

/// Points in time are ordered by the nanoseconds that have gone by.
pub proof fn law_times_are_ordered(a: Timestamp, b: Timestamp)
    requires
        a.valid(),
        b.valid(),
    ensures
        a.not_before(b) <==> a.secs * 1_000_000_000 + a.nanos >= b.secs * 1_000_000_000 + b.nanos,
{
}

/// The point in time `minutes` before `now`; a negative number of minutes lies after it.
/// There is none where no calendar date could be given for it.
pub fn cutoff_time(now: &Timestamp, minutes: i64) -> (r: Option<Timestamp>)
    requires
        now.valid(),
    ensures
        r == minutes_before(*now, minutes),
        r is Some ==> r->0.valid(),
{
    match minutes_as_seconds(minutes) {
        None => None,
        Some(by) => match seconds_before(now.secs, now.nanos, by) {
            None => None,
            Some((secs, nanos)) => Some(Timestamp { secs, nanos }),
        },
    }
}

/// Renders a point in time as an RFC 3339 date and time in UTC.
pub fn system_time_to_rfc3339_utc(t: &Timestamp) -> (r: Option<String>)
    requires
        t.valid(),
    ensures
        r is Some,
        r->0@ == rfc3339(t.secs, t.nanos),
{
    format_rfc3339(t.secs, t.nanos)
}

} // verus!
