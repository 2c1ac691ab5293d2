//! Moments and their RFC 3339 texts.

use crate::types::Timestamp;
use vstd::prelude::*;

verus! {

/// The moment of an RFC 3339 text, if it is one.
pub uninterp spec fn rfc3339_moment(s: Seq<char>) -> Option<Timestamp>;

/// The RFC 3339 text of a moment, if the calendar reaches it.
pub uninterp spec fn rfc3339_text(t: Timestamp) -> Option<Seq<char>>;

/// The date and time that a text gives in a format, read as UTC.
pub uninterp spec fn naive_moment(s: Seq<char>, format: Seq<char>) -> Option<Timestamp>;

/// The midnight, read as UTC, of the date that a text gives in a format.
pub uninterp spec fn date_moment(s: Seq<char>, format: Seq<char>) -> Option<Timestamp>;

/// The milliseconds from one moment to another, by the calendar's own arithmetic.
pub uninterp spec fn calendar_millis(from: Timestamp, to: Timestamp) -> Option<i64>;

/// A moment between the years 0 and 9999 that is not within a leap second.
pub open spec fn common(t: Timestamp) -> bool {
    -62_167_219_200 <= t.secs <= 253_402_300_799 && t.nanos < 1_000_000_000
}

/// A moment between the years 0 and 9999, within a leap second or not. A leap second stands behind the
/// last second of a minute.
pub open spec fn tellable(t: Timestamp) -> bool {
    -62_167_219_200 <= t.secs <= 253_402_300_799 && (t.nanos < 1_000_000_000 || t.nanos < 2_000_000_000 && t.secs % 60
        == 59)
}

/// A moment within a day of the years 0 to 9999.
pub open spec fn near(t: Timestamp) -> bool {
    -62_167_305_600 <= t.secs <= 253_402_387_199
}

/// `chrono::DateTime::parse_from_rfc3339`: the moment that an RFC 3339 text names. The year has
/// four digits and the offset is less than a day, which bounds the moment.
#[verifier::external_body]
pub(crate) fn parse_rfc3339(s: &str) -> (r: Option<Timestamp>)
    ensures
        r == rfc3339_moment(s@),
        r is Some ==> near(r->0),
{
    match chrono::DateTime::parse_from_rfc3339(s) {
        Ok(d) => Some(Timestamp { secs: d.timestamp(), nanos: d.timestamp_subsec_nanos() }),
        Err(_) => None,
    }
}

/// `chrono::DateTime::to_rfc3339` on the moment that `chrono::DateTime::from_timestamp` makes:
/// its text in UTC, none where the calendar does not reach the moment. A moment of the
/// years 0 to 9999 has a text, within a leap second too, and parsing that text gives the moment back.
#[verifier::external_body]
pub(crate) fn to_rfc3339(t: Timestamp) -> (r: Option<String>)
    ensures
        match r {
            Some(s) => rfc3339_text(t) == Some(s@),
            None => rfc3339_text(t) is None,
        },
        tellable(t) ==> r is Some && rfc3339_moment(r->0@) == Some(t),
{
    match chrono::DateTime::from_timestamp(t.secs, t.nanos) {
        Some(d) => Some(d.to_rfc3339()),
        None => None,
    }
}

/// `chrono::NaiveDateTime::parse_from_str`: the date and time that a text gives in a format, here
/// read as UTC.
#[verifier::external_body]
pub(crate) fn parse_naive(s: &str, format: &str) -> (r: Option<Timestamp>)
    ensures
        r == naive_moment(s@, format@),
{
    match chrono::NaiveDateTime::parse_from_str(s, format) {
        Ok(d) => {
            let d = d.and_utc();
            Some(Timestamp { secs: d.timestamp(), nanos: d.timestamp_subsec_nanos() })
        },
        Err(_) => None,
    }
}

/// `chrono::NaiveDate::parse_from_str`: the date that a text gives in a format, here as its
/// midnight read as UTC.
#[verifier::external_body]
pub(crate) fn parse_date(s: &str, format: &str) -> (r: Option<Timestamp>)
    ensures
        r == date_moment(s@, format@),
{
    match chrono::NaiveDate::parse_from_str(s, format) {
        Ok(d) => {
            let d = d.and_time(chrono::NaiveTime::MIN).and_utc();
            Some(Timestamp { secs: d.timestamp(), nanos: d.timestamp_subsec_nanos() })
        },
        Err(_) => None,
    }
}

/// The nanoseconds from the epoch to a moment.
pub open spec fn nanos_of(t: Timestamp) -> int {
    t.secs * 1_000_000_000 + t.nanos
}

/// The whole milliseconds from one moment to another outside leap seconds, cut towards zero.
pub open spec fn whole_millis(from: Timestamp, to: Timestamp) -> i64 {
    let nanos = nanos_of(to) - nanos_of(from);
    if nanos >= 0 {
        (nanos / 1_000_000) as i64
    } else {
        -((-nanos) / 1_000_000) as i64
    }
}

/// `chrono::DateTime::signed_duration_since` and `TimeDelta::num_milliseconds`: the whole
/// milliseconds from one moment to another, none where the calendar does not reach them, which are the
/// moments without a text. Between common moments they are the difference of the two, cut towards zero.
#[verifier::external_body]
pub(crate) fn millis_between(from: Timestamp, to: Timestamp) -> (r: Option<i64>)
    ensures
        r == calendar_millis(from, to),
        r is Some <==> (rfc3339_text(from) is Some && rfc3339_text(to) is Some),
        tellable(from) && tellable(to) ==> r is Some,
        common(from) && common(to) ==> r == Some(whole_millis(from, to)),
{
    let a = chrono::DateTime::from_timestamp(from.secs, from.nanos)?;
    let b = chrono::DateTime::from_timestamp(to.secs, to.nanos)?;
    Some(b.signed_duration_since(a).num_milliseconds())
}

/// The moment of a number of Unix milliseconds.
pub open spec fn millis_moment(ms: int) -> Timestamp {
    Timestamp { secs: (ms / 1000) as i64, nanos: ((ms % 1000) * 1_000_000) as u32 }
}

/// The moment of a number of Unix milliseconds.
pub fn from_millis(ms: i64) -> (t: Timestamp)
    ensures
        t == millis_moment(ms as int),
        t.nanos < 1_000_000_000,
{
    let wide: i128 = ms as i128 + 9_223_372_036_854_776_000;
    let secs: i128 = wide / 1000 - 9_223_372_036_854_776;
    let rest: i128 = wide % 1000;
    Timestamp { secs: secs as i64, nanos: (rest * 1_000_000) as u32 }
}

/// The RFC 3339 text of a moment, empty where the calendar does not reach it.
pub open spec fn shown_moment(t: Timestamp) -> Seq<char> {
    match rfc3339_text(t) {
        Some(s) => s,
        None => seq![],
    }
}

/// The RFC 3339 text of a moment, empty where the calendar does not reach it.
pub fn show_moment(t: Timestamp) -> (s: String)
    ensures
        s@ == shown_moment(t),
        tellable(t) ==> rfc3339_moment(s@) == Some(t),
{
    match to_rfc3339(t) {
        Some(s) => s,
        None => {
            let s = String::new();
            proof {
                assert(s@ =~= seq![]);
            }
            s
        },
    }
}

} // verus!
