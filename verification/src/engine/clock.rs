//! Wall-clock moments.

use chrono::{DateTime, Utc};
use vstd::prelude::*;

verus! {

/// A moment in UTC: seconds since the Unix epoch and the nanoseconds on top. In a leap second the
/// nanoseconds run on past a whole second.
#[derive(Debug, Clone, Copy, PartialEq, Eq, Structural)]
pub struct Moment {
    pub secs: i64,
    pub nanos: u32,
}

pub const SECONDS_PER_DAY: i128 = 86_400;

pub const NANOS_PER_SECOND: i128 = 1_000_000_000;

/// The second that a leap second between two times of day adds to their distance.
pub open spec fn leap_between(later: Moment, earlier: Moment) -> int {
    let l = later.secs as int % 86_400;
    let e = earlier.secs as int % 86_400;
    if l > e && earlier.nanos >= 1_000_000_000 {
        1
    } else if l < e && later.nanos >= 1_000_000_000 {
        -1
    } else {
        0
    }
}

/// Nanoseconds from `earlier` to `later`.
pub open spec fn nanos_between(later: Moment, earlier: Moment) -> int {
    (later.secs - earlier.secs + leap_between(later, earlier)) * 1_000_000_000 + later.nanos
        - earlier.nanos
}

/// Whole days from `earlier` to `later`, none if they are in the other order.
pub open spec fn days_between(later: Moment, earlier: Moment) -> int {
    if nanos_between(later, earlier) < 0 {
        0
    } else {
        nanos_between(later, earlier) / 86_400_000_000_000
    }
}

/// Seconds since midnight.
fn second_of_day(m: Moment) -> (s: i64)
    ensures
        s == m.secs as int % 86_400,
{
    let r: i64 = m.secs % 86_400;
    if r < 0 {
        r + 86_400
    } else {
        r
    }
}

/// Whole days from `earlier` to `later`.
pub fn age_in_days(later: Moment, earlier: Moment) -> (days: u64)
    ensures
        days == days_between(later, earlier),
{
    let l = second_of_day(later);
    let e = second_of_day(earlier);
    let leap: i128 = if l > e && earlier.nanos >= 1_000_000_000 {
        1
    } else if l < e && later.nanos >= 1_000_000_000 {
        -1
    } else {
        0
    };
    let secs: i128 = later.secs as i128 - earlier.secs as i128 + leap;
    let nanos: i128 = secs * NANOS_PER_SECOND + later.nanos as i128 - earlier.nanos as i128;
    if nanos < 0 {
        0
    } else {
        (nanos / (SECONDS_PER_DAY * NANOS_PER_SECOND)) as u64
    }
}

/// What the `FromStr` of `chrono::DateTime<Utc>` makes of a text: seconds and nanoseconds.
pub uninterp spec fn utc_of(text: Seq<char>) -> Option<(i64, u32)>;

/// What `chrono::DateTime::parse_from_rfc3339` makes of a text, as a moment in UTC: seconds and
/// nanoseconds.
pub uninterp spec fn rfc3339_instant(text: Seq<char>) -> Option<(i64, u32)>;

/// The RFC 3339 text that `chrono::DateTime::to_rfc3339` gives for a moment in UTC, absent where
/// chrono has no such moment.
pub uninterp spec fn rfc3339_text(secs: i64, nanos: u32) -> Option<Seq<char>>;

/// Calls `str::parse::<chrono::DateTime<Utc>>` and takes the result apart with `timestamp` and
/// `timestamp_subsec_nanos`. The contract only says that the outcome depends on the text alone.
#[verifier::external_body]
fn chrono_parse(text: &str) -> (r: Option<(i64, u32)>)
    ensures
        r == utc_of(text@),
{
    match text.parse::<DateTime<Utc>>() {
        Ok(t) => Some((t.timestamp(), t.timestamp_subsec_nanos())),
        Err(_) => None,
    }
}

/// Calls `chrono::DateTime::parse_from_rfc3339` and takes the result apart with `timestamp` and
/// `timestamp_subsec_nanos`, which are those of the moment in UTC. The contract only says that the
/// outcome depends on the text alone.
#[verifier::external_body]
fn chrono_parse_rfc3339(text: &str) -> (r: Option<(i64, u32)>)
    ensures
        r == rfc3339_instant(text@),
{
    match DateTime::parse_from_rfc3339(text) {
        Ok(t) => Some((t.timestamp(), t.timestamp_subsec_nanos())),
        Err(_) => None,
    }
}

/// Calls `chrono::DateTime::<Utc>::from_timestamp` and `to_rfc3339`. The contract only says that
/// the outcome depends on the two numbers alone.
#[verifier::external_body]
fn chrono_to_rfc3339(secs: i64, nanos: u32) -> (r: Option<String>)
    ensures
        match r {
            Some(s) => rfc3339_text(secs, nanos) == Some(s@),
            None => rfc3339_text(secs, nanos) is None,
        },
{
    DateTime::<Utc>::from_timestamp(secs, nanos).map(|t| t.to_rfc3339())
}

/// The moment for its two numbers.
pub open spec fn moment_of(parts: Option<(i64, u32)>) -> Option<Moment> {
    match parts {
        Some((secs, nanos)) => Some(Moment { secs, nanos }),
        None => None,
    }
}

/// The moment for its two numbers.
pub fn from_parts(parts: Option<(i64, u32)>) -> (m: Option<Moment>)
    ensures
        m == moment_of(parts),
{
    match parts {
        Some((secs, nanos)) => Some(Moment { secs, nanos }),
        None => None,
    }
}

/// The moment that a timestamp in any of the accepted forms stands for.
pub fn parse_utc(text: &str) -> (m: Option<Moment>)
    ensures
        m == moment_of(utc_of(text@)),
{
    from_parts(chrono_parse(text))
}

/// The moment that an RFC 3339 timestamp stands for.
pub fn parse_rfc3339(text: &str) -> (m: Option<Moment>)
    ensures
        m == moment_of(rfc3339_instant(text@)),
{
    from_parts(chrono_parse_rfc3339(text))
}

/// The RFC 3339 text of a moment.
pub fn to_rfc3339(m: Moment) -> (r: Option<String>)
    ensures
        match r {
            Some(s) => rfc3339_text(m.secs, m.nanos) == Some(s@),
            None => rfc3339_text(m.secs, m.nanos) is None,
        },
{
    chrono_to_rfc3339(m.secs, m.nanos)
}

/// A moment is no days older than itself, and age only grows as time goes on.
pub proof fn law_age_grows(now: Moment, later: Moment, then: Moment)
    requires
        now.nanos < 1_000_000_000,
        later.nanos < 1_000_000_000,
        then.nanos < 1_000_000_000,
        nanos_between(later, now) >= 0,
    ensures
        days_between(then, then) == 0,
        days_between(now, then) <= days_between(later, then),
{
}

/// The age is the number of whole days that fit between two moments, none where the earlier one
/// comes later.
pub proof fn law_age_counts_whole_days(later: Moment, earlier: Moment, days: u64)
    requires
        call_ensures(age_in_days, (later, earlier), days),
        later.nanos < 1_000_000_000,
        earlier.nanos < 1_000_000_000,
    ensures
        ({
            let day = 86_400_000_000_000int;
            let a = earlier.secs * 1_000_000_000 + earlier.nanos;
            let b = later.secs * 1_000_000_000 + later.nanos;
            &&& a <= b ==> a + days * day <= b && b < a + (days + 1) * day
            &&& b < a ==> days == 0
        }),
{
    assert(leap_between(later, earlier) == 0);
}

/// The time from one moment to another is the opposite of the time back.
pub proof fn law_time_is_counted_both_ways(a: Moment, b: Moment)
    requires
        a.nanos < 1_000_000_000 || b.nanos < 1_000_000_000,
    ensures
        nanos_between(a, b) == -nanos_between(b, a),
{
}

/// A leap second is a second of its own: the way over it within a day is one second longer.
pub proof fn law_a_leap_second_counts(a: Moment, leap: Moment, b: Moment)
    requires
        0 <= a.secs < leap.secs < b.secs < 86_400,
        a.nanos < 1_000_000_000,
        b.nanos < 1_000_000_000,
        1_000_000_000 <= leap.nanos < 2_000_000_000,
    ensures
        nanos_between(leap, a) + nanos_between(b, leap) == nanos_between(b, a) + 1_000_000_000,
{
}

} // verus!
