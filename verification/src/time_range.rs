//! Ranges of time: what a query covers.

use crate::timeparse::{parse_time_arg, settle, settled, time_meant, trimmed};
use crate::timestamps::{parse_rfc3339, rfc3339_moment, show_moment, shown_moment};
use crate::types::Timestamp;
use vstd::prelude::*;

verus! {

/// A range of time to look at.
#[derive(Debug)]
pub enum TimeRange {
    /// From local midnight on.
    Today,
    Last7,
    Last30,
    /// From one RFC 3339 text to another.
    Custom(String, String),
}

/// What a [`TimeRange`] holds.
pub enum RangeModel {
    Today,
    Last7,
    Last30,
    Custom(Seq<char>, Seq<char>),
}

impl View for TimeRange {
    type V = RangeModel;

    open spec fn view(&self) -> RangeModel {
        match self {
            TimeRange::Today => RangeModel::Today,
            TimeRange::Last7 => RangeModel::Last7,
            TimeRange::Last30 => RangeModel::Last30,
            TimeRange::Custom(a, b) => RangeModel::Custom(a@, b@),
        }
    }
}

/// A number of seconds, held within what a moment can express.
pub open spec fn clamped(secs: int) -> i64 {
    if secs < i64::MIN {
        i64::MIN
    } else {
        secs as i64
    }
}

/// The moment a number of days before another.
pub open spec fn days_before(t: Timestamp, days: int) -> Timestamp {
    Timestamp { secs: clamped(t.secs - days * 86_400), nanos: t.nanos }
}

/// The beginning of the UTC day of a moment.
pub open spec fn utc_midnight(t: Timestamp) -> Timestamp {
    Timestamp { secs: clamped(t.secs - t.secs as int % 86_400), nanos: 0 }
}

/// The moment a number of days before another.
pub fn minus_days(t: Timestamp, days: u32) -> (r: Timestamp)
    ensures
        r == days_before(t, days as int),
{
    let secs: i128 = t.secs as i128 - days as i128 * 86_400;
    let held: i64 = if secs < i64::MIN as i128 {
        i64::MIN
    } else {
        secs as i64
    };
    Timestamp { secs: held, nanos: t.nanos }
}

/// The beginning of the UTC day of a moment.
pub fn day_start(t: Timestamp) -> (r: Timestamp)
    ensures
        r == utc_midnight(t),
{
    let lifted: i128 = t.secs as i128 + 9_223_372_036_854_806_400;
    let rest: i128 = lifted % 86_400;
    proof {
        assert(lifted as int % 86_400 == t.secs as int % 86_400);
    }
    let secs: i128 = t.secs as i128 - rest;
    let held: i64 = if secs < i64::MIN as i128 {
        i64::MIN
    } else {
        secs as i64
    };
    Timestamp { secs: held, nanos: 0 }
}

/// Where a range begins. `from` is the moment that the text of a custom range names, if it names
/// one, and `today` is local midnight.
pub open spec fn range_start(range: RangeModel, from: Option<Timestamp>, now: Timestamp, today: Timestamp) -> Timestamp {
    match range {
        RangeModel::Today => today,
        RangeModel::Last7 => days_before(now, 7),
        RangeModel::Last30 => days_before(now, 30),
        RangeModel::Custom(_, _) => match from {
            Some(t) => t,
            None => utc_midnight(now),
        },
    }
}

/// Where a range ends. `to` is the moment that the text of a custom range names, if it names one.
pub open spec fn range_end(range: RangeModel, to: Option<Timestamp>, now: Timestamp) -> Timestamp {
    match range {
        RangeModel::Custom(_, _) => match to {
            Some(t) => t,
            None => now,
        },
        _ => now,
    }
}

/// The moments that the texts of a custom range name.
pub open spec fn range_texts(range: RangeModel) -> (Option<Timestamp>, Option<Timestamp>) {
    match range {
        RangeModel::Custom(a, b) => (rfc3339_moment(a), rfc3339_moment(b)),
        _ => (None, None),
    }
}

/// The range with a number in the list of choices; every other number is today.
pub open spec fn range_at(idx: i32) -> RangeModel {
    if idx == 1 {
        RangeModel::Last7
    } else if idx == 2 {
        RangeModel::Last30
    } else if idx == 3 {
        RangeModel::Custom(seq![], seq![])
    } else {
        RangeModel::Today
    }
}

/// The shown name of a range.
pub open spec fn range_label(range: RangeModel) -> Seq<char> {
    match range {
        RangeModel::Today => "今日"@,
        RangeModel::Last7 => "近7天"@,
        RangeModel::Last30 => "近30天"@,
        RangeModel::Custom(_, _) => "所选时段"@,
    }
}

impl TimeRange {
    /// The range with a number in the list of choices; every other number is today.
    pub fn from_index(idx: i32) -> (r: TimeRange)
        ensures
            r@ == range_at(idx),
            r@ == (if idx == 1 {
                RangeModel::Last7
            } else if idx == 2 {
                RangeModel::Last30
            } else if idx == 3 {
                RangeModel::Custom(seq![], seq![])
            } else {
                RangeModel::Today
            }),
    {
        if idx == 1 {
            TimeRange::Last7
        } else if idx == 2 {
            TimeRange::Last30
        } else if idx == 3 {
            let a = String::new();
            let b = String::new();
            proof {
                assert(a@ =~= seq![]);
                assert(b@ =~= seq![]);
            }
            TimeRange::Custom(a, b)
        } else {
            TimeRange::Today
        }
    }

    /// The shown name of the range.
    pub fn label(&self) -> (r: &'static str)
        ensures
            r@ == range_label(self@),
            r@ == match self@ {
                RangeModel::Today => "今日"@,
                RangeModel::Last7 => "近7天"@,
                RangeModel::Last30 => "近30天"@,
                RangeModel::Custom(_, _) => "所选时段"@,
            },
    {
        match self {
            TimeRange::Today => "今日",
            TimeRange::Last7 => "近7天",
            TimeRange::Last30 => "近30天",
            TimeRange::Custom(_, _) => "所选时段",
        }
    }

    /// Where the range begins and ends, given the moments that its texts name.
    pub fn limits(&self, from: Option<Timestamp>, to: Option<Timestamp>, now: Timestamp, today: Timestamp) -> (r: (
        Timestamp,
        Timestamp,
    ))
        ensures
            r.0 == range_start(self@, from, now, today),
            r.1 == range_end(self@, to, now),
    {
        match self {
            TimeRange::Today => (today, now),
            TimeRange::Last7 => (minus_days(now, 7), now),
            TimeRange::Last30 => (minus_days(now, 30), now),
            TimeRange::Custom(_, _) => {
                let start = match from {
                    Some(t) => t,
                    None => day_start(now),
                };
                let end = match to {
                    Some(t) => t,
                    None => now,
                };
                (start, end)
            },
        }
    }

    /// The RFC 3339 texts between which the range lies, both included; `today` is local midnight.
    pub fn bounds(&self, now: Timestamp, today: Timestamp) -> (r: (String, String))
        ensures
            r.0@ == shown_moment(range_start(self@, range_texts(self@).0, now, today)),
            r.1@ == shown_moment(range_end(self@, range_texts(self@).1, now)),
    {
        let (from, to) = match self {
            TimeRange::Custom(a, b) => (parse_rfc3339(a.as_str()), parse_rfc3339(b.as_str())),
            _ => (None, None),
        };
        let (start, end) = self.limits(from, to, now, today);
        (show_moment(start), show_moment(end))
    }
}

/// Where today begins and how far it has come.
pub open spec fn today_limits(midnight: Option<Timestamp>, now: Timestamp) -> (Timestamp, Timestamp) {
    (
        match midnight {
            Some(t) => t,
            None => now,
        },
        now,
    )
}

/// Where today begins and how far it has come: from local midnight, or from now where the local
/// clock skips or repeats it.
pub fn local_today_bounds_utc(midnight: Option<Timestamp>, now: Timestamp) -> (r: (Timestamp, Timestamp))
    ensures
        r == today_limits(midnight, now),
{
    match midnight {
        Some(t) => (t, now),
        None => (now, now),
    }
}

/// The RFC 3339 texts between which today lies.
pub fn local_today_bounds(midnight: Option<Timestamp>, now: Timestamp) -> (r: (String, String))
    ensures
        r.0@ == shown_moment(today_limits(midnight, now).0),
        r.1@ == shown_moment(today_limits(midnight, now).1),
{
    let (start, end) = local_today_bounds_utc(midnight, now);
    (show_moment(start), show_moment(end))
}

/// The moment at which the local clock showed a reading, for each end of a range.
#[derive(Clone, Copy, Debug, PartialEq, Eq)]
pub struct LocalMoments {
    pub from: Option<Timestamp>,
    pub to: Option<Timestamp>,
}

/// The complaint about a time that was not understood.
pub open spec fn time_complaint(option: Seq<char>, given: Seq<char>) -> Seq<char> {
    "无法解析 "@ + option + " \""@ + given + "\"（支持 RFC3339、YYYY-MM-DD HH:MM:SS、YYYY-MM-DD）"@
}

/// The end of a range that an option gives: its moment, or the complaint about it.
pub open spec fn limit_given(
    option: Seq<char>,
    given: Option<Seq<char>>,
    meant: Option<Timestamp>,
    missing: Timestamp,
) -> Result<Timestamp, Seq<char>> {
    match given {
        Some(s) => match meant {
            Some(t) => Ok(t),
            None => Err(time_complaint(option, s)),
        },
        None => Ok(missing),
    }
}

/// The view of an optional text.
pub open spec fn text_of(s: Option<&str>) -> Option<Seq<char>> {
    match s {
        Some(x) => Some(x@),
        None => None,
    }
}

/// One end of a range: what the option means, or what stands for a missing option.
pub fn limit_of(option: &str, given: Option<&str>, meant: Option<Timestamp>, missing: Timestamp) -> (r: Result<
    Timestamp,
    String,
>)
    ensures
        match r {
            Ok(t) => limit_given(option@, text_of(given), meant, missing) == Ok::<Timestamp, Seq<char>>(t),
            Err(e) => limit_given(option@, text_of(given), meant, missing) == Err::<Timestamp, Seq<char>>(e@),
        },
{
    match given {
        Some(s) => match meant {
            Some(t) => Ok(t),
            None => {
                let mut e = String::from_str("无法解析 ");
                e.append(option);
                e.append(" \"");
                e.append(s);
                e.append("\"（支持 RFC3339、YYYY-MM-DD HH:MM:SS、YYYY-MM-DD）");
                Err(e)
            },
        },
        None => Ok(missing),
    }
}

/// What an option means, given the moment of its local clock reading.
pub open spec fn meant_by(given: Option<Seq<char>>, local: Option<Timestamp>) -> Option<Timestamp> {
    match given {
        Some(s) => settled(time_meant(trimmed(s)), local),
        None => None,
    }
}

/// The texts of a range, or the first complaint about its ends.
pub open spec fn range_resolved(from: Result<Timestamp, Seq<char>>, to: Result<Timestamp, Seq<char>>) -> Result<
    (Seq<char>, Seq<char>),
    Seq<char>,
> {
    match from {
        Err(e) => Err(e),
        Ok(start) => match to {
            Err(e) => Err(e),
            Ok(end) => Ok((shown_moment(start), shown_moment(end))),
        },
    }
}

fn meaning(given: Option<&str>, local: Option<Timestamp>) -> (r: Option<Timestamp>)
    ensures
        r == meant_by(text_of(given), local),
{
    match given {
        Some(s) => settle(parse_time_arg(s), local),
        None => None,
    }
}

/// The RFC 3339 texts of the range that two options give, or a complaint.
pub open spec fn range_asked(
    from: Option<Seq<char>>,
    to: Option<Seq<char>>,
    local: LocalMoments,
    now: Timestamp,
    today: Timestamp,
) -> Result<(Seq<char>, Seq<char>), Seq<char>> {
    range_resolved(
        limit_given("--from"@, from, meant_by(from, local.from), today),
        limit_given("--to"@, to, meant_by(to, local.to), now),
    )
}

/// The RFC 3339 texts of the range that two options give: local midnight where the first is
/// missing, now where the second is, and a complaint where one is no time.
pub fn resolve_range(from: Option<&str>, to: Option<&str>, local: LocalMoments, now: Timestamp, today: Timestamp) -> (r:
    Result<(String, String), String>)
    ensures
        ({
            let asked = range_asked(text_of(from), text_of(to), local, now, today);
            match r {
                Ok((a, b)) => asked == Ok::<(Seq<char>, Seq<char>), Seq<char>>((a@, b@)),
                Err(e) => asked == Err::<(Seq<char>, Seq<char>), Seq<char>>(e@),
            }
        }),
{
    let start = match limit_of("--from", from, meaning(from, local.from), today) {
        Ok(t) => t,
        Err(e) => return Err(e),
    };
    let end = match limit_of("--to", to, meaning(to, local.to), now) {
        Ok(t) => t,
        Err(e) => return Err(e),
    };
    Ok((show_moment(start), show_moment(end)))
}

/// Without options a range is today, with the same bounds as [`TimeRange::Today`] and as the
/// count of today's events.
pub proof fn lemma_default_range_is_today(now: Timestamp, today: Timestamp)
    ensures
        range_resolved(
            limit_given("--from"@, None, None, today),
            limit_given("--to"@, None, None, now),
        ) == Ok::<(Seq<char>, Seq<char>), Seq<char>>(
            (
                shown_moment(range_start(RangeModel::Today, None, now, today)),
                shown_moment(range_end(RangeModel::Today, None, now)),
            ),
        ),
{
}

} // verus!
