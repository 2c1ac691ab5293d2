//! What times, ranges and charts over them mean.

use crate::level::{above, at_most, Level};
use crate::resource::{
    bucket_begin, bucket_of, bucket_plan, disk_peak, disk_top, edge_text, held_bucket, lemma_moment_in_bucket, lemma_plan, plan_between, plan_ok, secs_named, snapshot_chosen, span_of,
    steps_to, wanted_buckets, window_edges, BucketPlan, EventSnapshot, WindowMeans,
};
use crate::time_range::{
    range_asked, range_at, range_end, range_label, range_start, range_texts, today_limits, LocalMoments, RangeModel,
};
use crate::timeparse::{
    is_white, lemma_back_done, lemma_front_done, settled, spaced, time_meant, trimmed, trimmed_back, trimmed_front, TimeArg,
};
use crate::timestamps::{date_moment, naive_moment, near, rfc3339_moment, shown_moment};
use crate::types::Timestamp;
use vstd::prelude::*;

verus! {

/// Trimming takes white space off both ends and nothing else.
pub proof fn lemma_trimming(s: Seq<char>) -> (ends: (Seq<char>, Seq<char>))
    ensures
        s == ends.0 + trimmed(s) + ends.1,
        forall|i: int| 0 <= i < ends.0.len() ==> is_white(#[trigger] ends.0[i]),
        forall|i: int| 0 <= i < ends.1.len() ==> is_white(#[trigger] ends.1[i]),
        trimmed(s).len() > 0 ==> !is_white(trimmed(s)[0]) && !is_white(trimmed(s).last()),
{
    let a = lemma_front_taken(s);
    let t = trimmed_front(s);
    let b = lemma_back_taken(t);
    lemma_front_done(s);
    lemma_back_done(t);
    assert(s =~= a + trimmed(s) + b);
    if trimmed(s).len() > 0 {
        assert(trimmed(s)[0] == t[0]);
    }
    (a, b)
}

proof fn lemma_front_taken(s: Seq<char>) -> (a: Seq<char>)
    ensures
        s == a + trimmed_front(s),
        forall|i: int| 0 <= i < a.len() ==> is_white(#[trigger] a[i]),
    decreases s.len(),
{
    if s.len() > 0 && is_white(s[0]) {
        let rest = lemma_front_taken(s.skip(1));
        let a = seq![s[0]] + rest;
        assert(trimmed_front(s) == trimmed_front(s.skip(1)));
        assert(s =~= seq![s[0]] + s.skip(1));
        assert(seq![s[0]] + (rest + trimmed_front(s)) =~= a + trimmed_front(s));
        assert(s =~= a + trimmed_front(s));
        a
    } else {
        assert(s =~= Seq::<char>::empty() + s);
        Seq::empty()
    }
}

proof fn lemma_back_taken(s: Seq<char>) -> (b: Seq<char>)
    ensures
        s == trimmed_back(s) + b,
        forall|i: int| 0 <= i < b.len() ==> is_white(#[trigger] b[i]),
    decreases s.len(),
{
    if s.len() > 0 && is_white(s.last()) {
        let rest = lemma_back_taken(s.drop_last());
        let b = rest.push(s.last());
        assert(trimmed_back(s) == trimmed_back(s.drop_last()));
        assert(s =~= s.drop_last().push(s.last()));
        assert((trimmed_back(s) + rest).push(s.last()) =~= trimmed_back(s) + b);
        assert(s =~= trimmed_back(s) + b);
        b
    } else {
        assert(s =~= s + Seq::<char>::empty());
        Seq::empty()
    }
}

/// Blanks, tabs and line ends are white space; letters, digits and signs are not.
pub proof fn lemma_white_space(c: char)
    ensures
        is_white(' ') && is_white('\t') && is_white('\n') && is_white('\r'),
        0x21 <= c as u32 <= 0x7e ==> !is_white(c),
{
}

/// A time is first an RFC 3339 text, which names a moment; else a date and time to the second, to the minute,
/// or a date, which the local clock shows. The letter between date and time may be a blank.
pub proof fn lemma_forms_of_times(s: Seq<char>)
    ensures
        s.len() == 0 ==> time_meant(s) is None,
        s.len() > 0 && rfc3339_moment(s) is Some ==> time_meant(s) == Some(TimeArg::Moment(rfc3339_moment(s)->0)),
        s.len() > 0 && rfc3339_moment(s) is None ==> {
            let second = naive_moment(spaced(s), "%Y-%m-%d %H:%M:%S"@);
            let minute = naive_moment(spaced(s), "%Y-%m-%d %H:%M"@);
            let date = date_moment(s, "%Y-%m-%d"@);
            &&& second is Some ==> time_meant(s) == Some(TimeArg::LocalClock(second->0))
            &&& second is None && minute is Some ==> time_meant(s) == Some(TimeArg::LocalClock(minute->0))
            &&& second is None && minute is None && date is Some ==> time_meant(s) == Some(TimeArg::LocalClock(date->0))
            &&& second is None && minute is None && date is None ==> time_meant(s) is None
        },
        spaced(s).len() == s.len(),
        forall|i: int| 0 <= i < s.len() && s[i] == 'T' ==> #[trigger] spaced(s)[i] == ' ',
        forall|i: int| 0 <= i < s.len() && s[i] != 'T' ==> #[trigger] spaced(s)[i] == s[i],
{
}

/// A moment stands for itself, and a reading of the local clock for the moment at which the clock showed it.
pub proof fn lemma_readings_settle(t: Timestamp, local: Option<Timestamp>)
    ensures
        settled(Some(TimeArg::Moment(t)), local) == Some(t),
        settled(Some(TimeArg::LocalClock(t)), local) == local,
        settled(None, local) is None,
{
}

/// The moment that an option names: an RFC 3339 text by itself, any other time by the local clock.
pub open spec fn named_by(s: Seq<char>, local: Option<Timestamp>) -> Option<Timestamp> {
    let t = trimmed(s);
    if t.len() == 0 {
        None
    } else if rfc3339_moment(t) is Some {
        rfc3339_moment(t)
    } else if naive_moment(spaced(t), "%Y-%m-%d %H:%M:%S"@) is Some || naive_moment(spaced(t), "%Y-%m-%d %H:%M"@) is Some
        || date_moment(t, "%Y-%m-%d"@) is Some {
        local
    } else {
        None
    }
}

/// A range runs from the first option to the second; without the first from the beginning of today, without
/// the second until now. An option that names no time is complained about by its name and its text, the
/// first option first.
pub proof fn lemma_ranges_as_asked(
    from: Option<Seq<char>>,
    to: Option<Seq<char>>,
    local: LocalMoments,
    now: Timestamp,
    today: Timestamp,
)
    ensures
        ({
            let r = range_asked(from, to, local, now, today);
            let bad_from = from is Some && named_by(from->0, local.from) is None;
            let bad_to = to is Some && named_by(to->0, local.to) is None;
            let start = if from is Some {
                named_by(from->0, local.from)->0
            } else {
                today
            };
            let end = if to is Some {
                named_by(to->0, local.to)->0
            } else {
                now
            };
            &&& bad_from ==> r == Err::<(Seq<char>, Seq<char>), Seq<char>>(complaint("--from"@, from->0))
            &&& !bad_from && bad_to ==> r == Err::<(Seq<char>, Seq<char>), Seq<char>>(complaint("--to"@, to->0))
            &&& !bad_from && !bad_to ==> r == Ok::<(Seq<char>, Seq<char>), Seq<char>>((shown_moment(start), shown_moment(end)))
        }),
{
}

/// What is said of a text that names no time.
pub open spec fn complaint(option: Seq<char>, given: Seq<char>) -> Seq<char> {
    "无法解析 "@ + option + " \""@ + given + "\"（支持 RFC3339、YYYY-MM-DD HH:MM:SS、YYYY-MM-DD）"@
}

/// Named ranges end now; they begin with today, or seven or thirty days ago at this time of day. A custom
/// range has the ends that are given.
pub proof fn lemma_named_ranges(from: Option<Timestamp>, to: Option<Timestamp>, now: Timestamp, today: Timestamp, a: Seq<char>, b: Seq<char>)
    requires
        now.secs >= -0x4000_0000_0000_0000,
    ensures
        range_start(RangeModel::Today, from, now, today) == today,
        range_start(RangeModel::Last7, from, now, today) == (Timestamp { secs: (now.secs - 604_800) as i64, nanos: now.nanos }),
        range_start(RangeModel::Last30, from, now, today) == (Timestamp { secs: (now.secs - 2_592_000) as i64, nanos: now.nanos }),
        range_end(RangeModel::Today, to, now) == now,
        range_end(RangeModel::Last7, to, now) == now,
        range_end(RangeModel::Last30, to, now) == now,
        from is Some ==> range_start(RangeModel::Custom(a, b), from, now, today) == from->0,
        to is Some ==> range_end(RangeModel::Custom(a, b), to, now) == to->0,
        to is None ==> range_end(RangeModel::Custom(a, b), to, now) == now,
        from is None ==> {
            let m = range_start(RangeModel::Custom(a, b), from, now, today);
            m.nanos == 0 && m.secs <= now.secs < m.secs + 86_400 && m.secs % 86_400 == 0
        },
{
}

/// Today runs from local midnight to now, and is empty where there was no local midnight.
pub proof fn lemma_today(midnight: Option<Timestamp>, now: Timestamp)
    ensures
        today_limits(midnight, now).1 == now,
        midnight is Some ==> today_limits(midnight, now).0 == midnight->0,
        midnight is None ==> today_limits(midnight, now).0 == now,
{
}

/// A chart has as many buckets as it is wide, but no fewer than two hundred and no more than two thousand
/// are asked for. They are of whole seconds, no wider than needed, and cover the range.
pub proof fn lemma_buckets_cover_the_range(base: int, end: int, width_px: int)
    requires
        -62_167_305_600 <= base <= 253_402_387_199,
        -62_167_305_600 <= end <= 253_402_387_199,
    ensures
        ({
            let p = bucket_plan(base, end, width_px);
            let asked = if width_px < 200 {
                200
            } else if width_px > 2000 {
                2000
            } else {
                width_px
            };
            let span = if end > base {
                end - base
            } else {
                1
            };
            &&& p.base_secs == base
            &&& p.span_secs == span
            &&& p.bucket_secs >= 1
            &&& p.bucket_secs * asked >= span
            &&& (p.bucket_secs - 1) * asked < span
            &&& (p.buckets - 1) * p.bucket_secs >= span
            &&& (p.buckets - 2) * p.bucket_secs < span
        }),
{
    lemma_plan(base, end, width_px);
    let span = span_of(base, end);
    let asked = wanted_buckets(width_px);
    let secs = steps_to(span, asked);
    lemma_least_steps(span, asked);
    assert(secs <= span) by (nonlinear_arith)
        requires
            (secs - 1) * asked < span,
            asked >= 1,
            span >= 1,
    ;
}

proof fn lemma_least_steps(n: int, step: int)
    requires
        n >= 1,
        step >= 1,
    ensures
        steps_to(n, step) * step >= n,
        (steps_to(n, step) - 1) * step < n,
        steps_to(n, step) >= 1,
{
    let q = (n + step - 1) / step;
    vstd::arithmetic::div_mod::lemma_fundamental_div_mod(n + step - 1, step);
    assert((n + step - 1) % step < step && (n + step - 1) % step >= 0) by (nonlinear_arith)
        requires
            step >= 1,
    ;
    assert(step * q == q * step) by (nonlinear_arith);
    assert((q - 1) * step == q * step - step) by (nonlinear_arith);
    assert(q >= 1) by (nonlinear_arith)
        requires
            q * step >= n,
            n >= 1,
            step >= 1,
    ;
}

/// A bucket outside the plan is held at its first or last one.
pub proof fn lemma_buckets_are_held(p: BucketPlan, bucket: int)
    requires
        plan_ok(p),
    ensures
        0 <= held_bucket(p, bucket) < p.buckets,
        0 <= bucket < p.buckets ==> held_bucket(p, bucket) == bucket,
        bucket < 0 ==> held_bucket(p, bucket) == 0,
        bucket >= p.buckets ==> held_bucket(p, bucket) == p.buckets - 1,
        bucket_of(p, p.base_secs - 1) == 0,
{
}

/// The ends of a range are the moments that its texts name, or now.
pub proof fn lemma_ends_named(t: Timestamp, now: Timestamp)
    ensures
        secs_named(Some(t), now) == t.secs,
        secs_named(None, now) == now.secs,
{
}

/// The window round an event reaches as far back as ahead.
pub proof fn lemma_window_round_an_event(center: int, half: int)
    requires
        -0x4000_0000_0000_0000 <= center <= 0x3fff_ffff_ffff_ffff,
        -0x4000_0000_0000_0000 < half <= 0x3fff_ffff_ffff_ffff,
    ensures
        window_edges(center, half).0 == (Timestamp { secs: (center - half) as i64, nanos: 0 }),
        window_edges(center, half).1 == (Timestamp { secs: (center + half) as i64, nanos: 0 }),
{
}

/// The top of the disk scale is no lower than any rate, read or written, no lower than one, and is one of
/// these.
pub proof fn lemma_disk_scale(rates: Seq<(Level, Level)>)
    ensures
        ({
            let top = disk_top(rates);
            let one = Level::At(0x3ff0_0000_0000_0000);
            &&& at_most(one, top)
            &&& forall|i: int| 0 <= i < rates.len() ==> !above((#[trigger] rates[i]).0, top) && !above(rates[i].1, top)
            &&& top == one || exists|i: int| 0 <= i < rates.len() && ((#[trigger] rates[i]).0 == top || rates[i].1 == top)
        }),
{
    lemma_disk_peak(rates, rates.len() as int);
}

proof fn lemma_disk_peak(rates: Seq<(Level, Level)>, n: int)
    requires
        0 <= n <= rates.len(),
    ensures
        disk_peak(rates, n) is At,
        at_most(Level::At(0), disk_peak(rates, n)),
        forall|i: int|
            0 <= i < n ==> !above((#[trigger] rates[i]).0, disk_peak(rates, n)) && !above(rates[i].1, disk_peak(rates, n)),
        disk_peak(rates, n) == Level::At(0) || exists|i: int|
            0 <= i < n && ((#[trigger] rates[i]).0 == disk_peak(rates, n) || rates[i].1 == disk_peak(rates, n)),
    decreases n,
{
    if n > 0 {
        lemma_disk_peak(rates, n - 1);
        let before = disk_peak(rates, n - 1);
        let after = disk_peak(rates, n);
        let (a, b) = rates[n - 1];
        assert(after == before || after == a || after == b);
        if after != Level::At(0) && after == before {
            let i = choose|i: int| 0 <= i < n - 1 && ((#[trigger] rates[i]).0 == before || rates[i].1 == before);
            assert(rates[i].0 == after || rates[i].1 == after);
        }
    }
}

/// The resources of an event are the means round it where CPU, memory and both disk means are there, else
/// those of the nearest sample.
pub proof fn lemma_resources_of_an_event(means: WindowMeans, nearest: Option<EventSnapshot>)
    ensures
        snapshot_chosen(None, nearest) == nearest,
        ({
            let all = means.cpu is Some && means.mem is Some && means.disk_read is Some && means.disk_write is Some;
            let r = snapshot_chosen(Some(means), nearest);
            &&& !all ==> r == nearest
            &&& all ==> r == Some(
                EventSnapshot {
                    cpu: means.cpu->0,
                    mem: means.mem->0,
                    disk_read: means.disk_read->0,
                    disk_write: means.disk_write->0,
                    gpu: means.gpu,
                },
            )
        }),
{
}

/// The ends of a custom range are what its texts name; other ranges have no texts. An edge that the calendar does
/// not reach is shown as the epoch.
pub proof fn lemma_texts_of_ranges(a: Seq<char>, b: Seq<char>, text: Seq<char>)
    ensures
        range_texts(RangeModel::Custom(a, b)) == (rfc3339_moment(a), rfc3339_moment(b)),
        range_texts(RangeModel::Today) == (None::<Timestamp>, None::<Timestamp>),
        range_texts(RangeModel::Last7) == (None::<Timestamp>, None::<Timestamp>),
        range_texts(RangeModel::Last30) == (None::<Timestamp>, None::<Timestamp>),
        edge_text(Some(text)) == text,
        edge_text(None) == "1970-01-01T00:00:00Z"@,
{
}

/// Ranges are chosen by number: seven days, thirty days, a custom one, and today for any other number.
pub proof fn lemma_ranges_by_number(idx: i32)
    ensures
        range_at(1) is Last7 && range_at(2) is Last30 && range_at(3) is Custom,
        idx < 1 || idx > 3 ==> range_at(idx) is Today,
        range_label(RangeModel::Today) == "今日"@,
        range_label(RangeModel::Last7) == "近7天"@,
        range_label(RangeModel::Last30) == "近30天"@,
        range_label(RangeModel::Custom(seq![], seq![])) == "所选时段"@,
{
}

/// The first bucket begins with the range, each other one where the one before ends, and a moment of the range lies
/// between the beginning of its bucket and that of the next.
pub proof fn lemma_buckets_begin(p: BucketPlan, bucket: int, secs: int)
    requires
        plan_ok(p),
        p.base_secs <= secs <= p.base_secs + p.span_secs,
    ensures
        bucket_begin(p, 0) == p.base_secs,
        bucket_begin(p, bucket + 1) == bucket_begin(p, bucket) + p.bucket_secs,
        bucket_begin(p, bucket_of(p, secs)) <= secs < bucket_begin(p, bucket_of(p, secs) + 1),
{
    lemma_moment_in_bucket(p, secs);
    assert((bucket + 1) * p.bucket_secs == bucket * p.bucket_secs + p.bucket_secs) by (nonlinear_arith);
}

/// A chart begins with the start of its range and reaches to the end.
pub proof fn lemma_charts_span_their_range(start: Option<Timestamp>, end: Option<Timestamp>, now: Timestamp, width_px: int)
    requires
        near(now),
        start is Some ==> near(start->0),
        end is Some ==> near(end->0),
    ensures
        ({
            let p = plan_between(start, end, now, width_px);
            let a = if start is Some {
                start->0.secs
            } else {
                now.secs
            };
            let b = if end is Some {
                end->0.secs
            } else {
                now.secs
            };
            &&& p.base_secs == a
            &&& b > a ==> p.span_secs == b - a
            &&& b <= a ==> p.span_secs == 1
        }),
{
}

} // verus!
