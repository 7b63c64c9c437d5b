//! Points in time: reading them, and showing them in a timezone.
use vstd::prelude::*;
use vstd::string::*;

use crate::text::opt_view;

verus! {

/// A point in time: Unix seconds and the nanoseconds since then.
#[derive(Clone, Copy, Debug, PartialEq, Eq, Structural)]
pub struct Instant {
    pub seconds: i64,
    pub nanos: u32,
}

/// The seconds of a day.
pub const DAY: i64 = 86400;

/// The nanoseconds of a second. A point in time with as many or more lies in the leap second that
/// is put behind its second.
pub const SECOND: u32 = 1_000_000_000;

/// Whether `a` comes before `b`: what lies in a leap second comes before the second behind it.
pub open spec fn precedes(a: Instant, b: Instant) -> bool {
    a.seconds < b.seconds || (a.seconds == b.seconds && a.nanos < b.nanos)
}

/// Whether `a` comes before `b`.
pub fn is_earlier(a: Instant, b: Instant) -> (r: bool)
    ensures
        r == precedes(a, b),
{
    a.seconds < b.seconds || (a.seconds == b.seconds && a.nanos < b.nanos)
}

/// The leap second that has to be counted besides, between two points in time at different times
/// of day: the one that the earlier of these lies in.
pub open spec fn uncounted_leap(from: Instant, to: Instant) -> int {
    let start = from.seconds as int % DAY as int;
    let end = to.seconds as int % DAY as int;
    if start < end && from.nanos >= SECOND {
        1
    } else if end < start && to.nanos >= SECOND {
        -1
    } else {
        0
    }
}

/// The time from `from` to `to`, in nanoseconds. This is how `chrono` counts it: as if there were no
/// leap seconds but those that the two lie in.
pub open spec fn elapsed(from: Instant, to: Instant) -> int {
    (to.seconds - from.seconds + uncounted_leap(from, to)) * SECOND + (to.nanos - from.nanos)
}

fn time_of_day(at: Instant) -> (r: i64)
    ensures
        r == at.seconds as int % DAY as int,
{
    match at.seconds.checked_rem_euclid(DAY) {
        Some(r) => r,
        None => 0,
    }
}

/// The time from `from` to `to`, in nanoseconds.
pub fn nanos_from(from: Instant, to: Instant) -> (r: i128)
    ensures
        r == elapsed(from, to),
{
    let start = time_of_day(from);
    let end = time_of_day(to);
    let leap: i128 = if start < end && from.nanos >= SECOND {
        1
    } else if end < start && to.nanos >= SECOND {
        -1
    } else {
        0
    };
    let seconds: i128 = to.seconds as i128 - from.seconds as i128 + leap;
    seconds * 1_000_000_000i128 + (to.nanos as i128 - from.nanos as i128)
}

/// Minutes, without the zone.
pub const MINUTES: &'static str = "%Y-%m-%d %H:%M";

/// Minutes, with the zone's abbreviation.
pub const MINUTES_WITH_ZONE: &'static str = "%Y-%m-%d %H:%M %Z";

/// Seconds, marked as UTC.
pub const SECONDS_UTC: &'static str = "%Y-%m-%d %H:%M:%S UTC";

/// Seconds, with the zone's offset.
pub const SECONDS_WITH_OFFSET: &'static str = "%Y-%m-%d %H:%M:%S %:z";

/// Whether times can be shown in this form.
pub open spec fn is_time_format(format: Seq<char>) -> bool {
    format == MINUTES@ || format == MINUTES_WITH_ZONE@ || format == SECONDS_UTC@ || format
        == SECONDS_WITH_OFFSET@
}

/// The point in time that an RFC 3339 text denotes, or why it denotes none.
pub uninterp spec fn rfc3339(text: Seq<char>) -> Result<Instant, Seq<char>>;

/// `DateTime::parse_from_rfc3339`: reads an RFC 3339 date and time with its offset, as a point in
/// time. The grammar is not written out here; the result is only given a name.
#[verifier::external_body]
pub(crate) fn parse_rfc3339(text: &str) -> (r: Result<Instant, String>)
    ensures
        match r {
            Ok(at) => rfc3339(text@) == Ok::<Instant, Seq<char>>(at),
            Err(reason) => rfc3339(text@) == Err::<Instant, Seq<char>>(reason@),
        },
{
    match chrono::DateTime::parse_from_rfc3339(text) {
        Ok(at) => Ok(Instant { seconds: at.timestamp(), nanos: at.timestamp_subsec_nanos() }),
        Err(error) => Err(error.to_string()),
    }
}

/// A point in time, in Unix seconds, as the clocks of a timezone show it; nothing for a time out of
/// the calendar's range or an unknown zone.
pub uninterp spec fn shown(seconds: i64, zone: Seq<char>, format: Seq<char>) -> Option<Seq<char>>;

/// `DateTime::from_timestamp`, `with_timezone` and `format`: what the clocks of a timezone show at
/// a point in time, in one of this module's forms. The calendar and the zones' rules are not
/// written out here; the result is only given a name. The forms are fixed because formatting
/// panics on one that is not valid.
#[verifier::external_body]
pub(crate) fn show(seconds: i64, zone: &str, format: &str) -> (r: Option<String>)
    requires
        is_time_format(format@),
    ensures
        opt_view(r) == shown(seconds, zone@, format@),
{
    let zone: chrono_tz::Tz = zone.parse().ok()?;
    let at = chrono::DateTime::from_timestamp(seconds, 0)?;
    Some(at.with_timezone(&zone).format(format).to_string())
}

/// `chrono::Utc::now`: the present. It depends on the time, so nothing is said of it.
#[verifier::external_body]
pub(crate) fn utc_now() -> (now: Instant) {
    let now = chrono::Utc::now();
    Instant { seconds: now.timestamp(), nanos: now.timestamp_subsec_nanos() }
}

/// The present, in Unix seconds.
pub fn unix_now() -> (now: i64) {
    utc_now().seconds
}

/// Of two different points in time one comes first, and what comes first is carried on.
pub proof fn law_time_has_an_order(a: Instant, b: Instant, c: Instant)
    ensures
        !precedes(a, a),
        precedes(a, b) ==> !precedes(b, a),
        precedes(a, b) && precedes(b, c) ==> precedes(a, c),
        a != b ==> precedes(a, b) || precedes(b, a),
{
}

/// Outside of leap seconds, time passes from the earlier point to the later one, as much as it runs
/// back, and what passes adds up.
pub proof fn law_time_adds_up(a: Instant, b: Instant, c: Instant)
    requires
        a.nanos < SECOND,
        b.nanos < SECOND,
        c.nanos < SECOND,
    ensures
        precedes(a, b) <==> elapsed(a, b) > 0,
        elapsed(a, b) == -elapsed(b, a),
        elapsed(a, b) + elapsed(b, c) == elapsed(a, c),
        a.nanos == b.nanos ==> elapsed(a, b) == (b.seconds - a.seconds) * 1_000_000_000,
{
}

} // verus!
