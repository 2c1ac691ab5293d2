//! Samples thinned for a chart: into how many buckets of time, and what falls where.

use crate::level::{higher, Level};
use crate::timestamps::{near, parse_rfc3339, rfc3339_moment, rfc3339_text, to_rfc3339};
use crate::text::opt_text;
use crate::types::Timestamp;
use vstd::prelude::*;

verus! {

/// The least number of buckets.
pub const BUCKETS_MIN: i64 = 200;

/// The largest number of buckets.
pub const BUCKETS_MAX: i64 = 2000;

/// The rank of one.
pub const ONE: i64 = 0x3ff0_0000_0000_0000;

/// Which curves a chart of resources shows.
#[derive(Clone, Copy, Debug, PartialEq, Eq, Structural)]
pub struct ResourceView {
    pub cpu: bool,
    pub mem: bool,
    pub disk_read: bool,
    pub disk_write: bool,
    pub gpu: bool,
    /// Whether disk rates are shown on a logarithmic scale.
    pub log_disk: bool,
}

impl Default for ResourceView {
    fn default() -> (v: ResourceView)
        ensures
            v == (ResourceView {
                cpu: true,
                mem: true,
                disk_read: true,
                disk_write: true,
                gpu: true,
                log_disk: false,
            }),
    {
        ResourceView { cpu: true, mem: true, disk_read: true, disk_write: true, gpu: true, log_disk: false }
    }
}

/// How a range of time is cut into buckets.
#[derive(Clone, Copy, Debug, PartialEq, Eq, Structural)]
pub struct BucketPlan {
    pub base_secs: i64,
    pub span_secs: i64,
    pub bucket_secs: i64,
    /// How many buckets cover the range.
    pub buckets: i64,
}

/// How many seconds a range has, at least one.
pub open spec fn span_of(base: int, end: int) -> int {
    if end - base < 1 {
        1
    } else {
        end - base
    }
}

/// How many buckets a chart of a width asks for.
pub open spec fn wanted_buckets(width_px: int) -> int {
    if width_px < BUCKETS_MIN {
        BUCKETS_MIN as int
    } else if width_px > BUCKETS_MAX {
        BUCKETS_MAX as int
    } else {
        width_px
    }
}

/// The least whole number of `step`s that reach `n`.
pub open spec fn steps_to(n: int, step: int) -> int {
    (n + step - 1) / step
}

/// How a range is cut for a chart of a width.
pub open spec fn bucket_plan(base: int, end: int, width_px: int) -> BucketPlan {
    let span = span_of(base, end);
    let secs = steps_to(span, wanted_buckets(width_px));
    BucketPlan {
        base_secs: base as i64,
        span_secs: span as i64,
        bucket_secs: secs as i64,
        buckets: (steps_to(span, secs) + 1) as i64,
    }
}

/// The number of seconds that stands for the end of a range: the moment that its text names, or now.
pub open spec fn secs_named(named: Option<Timestamp>, now: Timestamp) -> int {
    match named {
        Some(t) => t.secs as int,
        None => now.secs as int,
    }
}

/// A plan that a range and a width give.
pub open spec fn plan_ok(p: BucketPlan) -> bool {
    &&& -62_167_305_600 <= p.base_secs <= 253_402_387_199
    &&& 1 <= p.span_secs <= 315_569_692_800
    &&& 1 <= p.bucket_secs <= p.span_secs
    &&& 2 <= p.buckets <= BUCKETS_MAX + 1
    &&& (p.buckets - 1) * p.bucket_secs >= p.span_secs
    &&& (p.buckets - 2) * p.bucket_secs < p.span_secs
}

proof fn lemma_steps(n: int, step: int)
    requires
        n >= 1,
        step >= 1,
    ensures
        1 <= steps_to(n, step) <= n,
        steps_to(n, step) * step >= n,
        (steps_to(n, step) - 1) * step < n,
{
    let k = steps_to(n, step);
    let m = n + step - 1;
    assert(m == k * step + m % step && 0 <= m % step < step) by (nonlinear_arith)
        requires
            k == m / step,
            step >= 1,
    ;
    assert(k * step >= n);
    assert((k - 1) * step == k * step - step) by (nonlinear_arith);
    assert(k >= 1) by (nonlinear_arith)
        requires
            k * step >= n,
            n >= 1,
            step >= 1,
    ;
    assert(k <= n) by (nonlinear_arith)
        requires
            (k - 1) * step < n,
            step >= 1,
            k >= 1,
            n >= 1,
    ;
}

/// Buckets cover a range, with no more of them than a chart shows and one besides, and a bucket
/// less would not do.
pub proof fn lemma_plan(base: int, end: int, width_px: int)
    requires
        -62_167_305_600 <= base <= 253_402_387_199,
        -62_167_305_600 <= end <= 253_402_387_199,
    ensures
        plan_ok(bucket_plan(base, end, width_px)),
        bucket_plan(base, end, width_px).buckets <= wanted_buckets(width_px) + 1,
        bucket_plan(base, end, width_px).base_secs == base,
        bucket_plan(base, end, width_px).span_secs == span_of(base, end),
{
    let span = span_of(base, end);
    let wanted = wanted_buckets(width_px);
    lemma_steps(span, wanted);
    let secs = steps_to(span, wanted);
    lemma_steps(span, secs);
    let k = steps_to(span, secs);
    assert(k <= wanted) by (nonlinear_arith)
        requires
            (k - 1) * secs < span,
            secs * wanted >= span,
            secs >= 1,
            wanted >= 1,
    ;
}

/// How the range between two moments is cut for a chart; now stands for one that is not known.
pub open spec fn plan_between(start: Option<Timestamp>, end: Option<Timestamp>, now: Timestamp, width_px: int) -> BucketPlan {
    bucket_plan(secs_named(start, now), secs_named(end, now), width_px)
}

/// How a range of time is cut for a chart, given the moments that its texts name.
pub fn plan_buckets(start: Option<Timestamp>, end: Option<Timestamp>, now: Timestamp, width_px: u32) -> (p: BucketPlan)
    requires
        start is Some ==> near(start->0),
        end is Some ==> near(end->0),
        near(now),
    ensures
        p == bucket_plan(secs_named(start, now), secs_named(end, now), width_px as int),
        p == plan_between(start, end, now, width_px as int),
        plan_ok(p),
{
    let base: i64 = match start {
        Some(t) => t.secs,
        None => now.secs,
    };
    let until: i64 = match end {
        Some(t) => t.secs,
        None => now.secs,
    };
    proof {
        lemma_plan(base as int, until as int, width_px as int);
        lemma_steps(span_of(base as int, until as int), wanted_buckets(width_px as int));
    }
    let span: i64 = if until - base < 1 {
        1
    } else {
        until - base
    };
    let wanted: i64 = if (width_px as i64) < BUCKETS_MIN {
        BUCKETS_MIN
    } else if width_px as i64 > BUCKETS_MAX {
        BUCKETS_MAX
    } else {
        width_px as i64
    };
    let secs: i64 = (span + wanted - 1) / wanted;
    let buckets: i64 = (span + secs - 1) / secs + 1;
    BucketPlan { base_secs: base, span_secs: span, bucket_secs: secs, buckets }
}

/// How the range between two RFC 3339 texts is cut for a chart; now stands for a text that names no
/// moment.
pub fn downsample_plan(start: &str, end: &str, now: Timestamp, width_px: u32) -> (p: BucketPlan)
    requires
        near(now),
    ensures
        p == bucket_plan(
            secs_named(rfc3339_moment(start@), now),
            secs_named(rfc3339_moment(end@), now),
            width_px as int,
        ),
        p == plan_between(rfc3339_moment(start@), rfc3339_moment(end@), now, width_px as int),
        plan_ok(p),
{
    plan_buckets(parse_rfc3339(start), parse_rfc3339(end), now, width_px)
}

/// A bucket number held within a plan.
pub open spec fn held_bucket(p: BucketPlan, bucket: int) -> int {
    if bucket < 0 {
        0
    } else if bucket > p.buckets - 1 {
        p.buckets - 1
    } else {
        bucket
    }
}

/// The bucket of a moment; the first or the last for one outside the range.
pub open spec fn bucket_of(p: BucketPlan, secs: int) -> int {
    if secs < p.base_secs {
        0
    } else {
        held_bucket(p, (secs - p.base_secs) / (p.bucket_secs as int))
    }
}

/// When a bucket begins.
pub open spec fn bucket_begin(p: BucketPlan, bucket: int) -> int {
    p.base_secs + bucket * p.bucket_secs
}

impl BucketPlan {
    /// The number of a bucket held within the plan, and the moment at which that bucket begins.
    pub fn place(&self, bucket: i64) -> (r: (i64, i64))
        requires
            plan_ok(*self),
        ensures
            r.0 == held_bucket(*self, bucket as int),
            r.1 == self.base_secs + held_bucket(*self, bucket as int) * self.bucket_secs,
            r.1 == bucket_begin(*self, r.0 as int),
    {
        let x: i64 = if bucket < 0 {
            0
        } else if bucket > self.buckets - 1 {
            self.buckets - 1
        } else {
            bucket
        };
        proof {
            lemma_offset_bounded(*self, x as int);
        }
        (x, self.base_secs + x * self.bucket_secs)
    }

    /// The bucket of an event.
    pub fn event_bucket(&self, secs: i64) -> (x: i64)
        requires
            plan_ok(*self),
        ensures
            x == bucket_of(*self, secs as int),
    {
        if secs < self.base_secs {
            return 0;
        }
        let past: i128 = secs as i128 - self.base_secs as i128;
        let bucket: i128 = past / self.bucket_secs as i128;
        if bucket > (self.buckets - 1) as i128 {
            self.buckets - 1
        } else {
            bucket as i64
        }
    }

    /// Whether labels show the time of day alone: the range is no longer than two days.
    pub fn short_labels(&self) -> (r: bool)
        ensures
            r == (self.span_secs <= 172_800),
    {
        self.span_secs <= 172_800
    }
}

proof fn lemma_offset_bounded(p: BucketPlan, x: int)
    requires
        plan_ok(p),
        0 <= x <= p.buckets - 1,
    ensures
        0 <= x * p.bucket_secs <= 315_569_692_800 * 2,
{
    let s = p.bucket_secs as int;
    let n = p.buckets as int;
    assert(x * s <= (n - 1) * s) by (nonlinear_arith)
        requires
            x <= n - 1,
            s >= 1,
    ;
    assert((n - 1) * s == (n - 2) * s + s) by (nonlinear_arith);
    assert(0 <= x * s) by (nonlinear_arith)
        requires
            x >= 0,
            s >= 1,
    ;
}

/// A moment of the range lies in its bucket: at or after the bucket's beginning, and before the next.
pub proof fn lemma_moment_in_bucket(p: BucketPlan, secs: int)
    requires
        plan_ok(p),
        p.base_secs <= secs <= p.base_secs + p.span_secs,
    ensures
        0 <= bucket_of(p, secs) < p.buckets,
        p.base_secs + bucket_of(p, secs) * p.bucket_secs <= secs,
        secs < p.base_secs + (bucket_of(p, secs) + 1) * p.bucket_secs,
{
    let s = p.bucket_secs as int;
    let d = secs - p.base_secs;
    let q = d / s;
    let n = p.buckets as int;
    assert(q * s <= d < (q + 1) * s && q >= 0) by (nonlinear_arith)
        requires
            q == d / s,
            s >= 1,
            d >= 0,
    ;
    assert(q <= n - 1) by (nonlinear_arith)
        requires
            q * s <= d,
            d <= (n - 1) * s,
            s >= 1,
    ;
}

/// The RFC 3339 text of a number of seconds, or that of the epoch where the calendar does not reach it.
pub open spec fn edge_text(text: Option<Seq<char>>) -> Seq<char> {
    match text {
        Some(s) => s,
        None => "1970-01-01T00:00:00Z"@,
    }
}

/// A sum held within what seconds can express.
pub open spec fn held_secs(n: int) -> i64 {
    if n < i64::MIN {
        i64::MIN
    } else if n > i64::MAX {
        i64::MAX
    } else {
        n as i64
    }
}

/// The text of an edge of a window, given its RFC 3339 text, if it has one.
pub fn show_edge(text: Option<String>) -> (s: String)
    ensures
        s@ == edge_text(opt_text(text)),
{
    match text {
        Some(s) => s,
        None => String::from_str("1970-01-01T00:00:00Z"),
    }
}

fn edge(secs: i128) -> (s: String)
    requires
        -0x2_0000_0000_0000_0000 <= secs <= 0x2_0000_0000_0000_0000,
    ensures
        s@ == edge_text(rfc3339_text(Timestamp { secs: held_secs(secs as int), nanos: 0 })),
{
    let held: i64 = if secs < i64::MIN as i128 {
        i64::MIN
    } else if secs > i64::MAX as i128 {
        i64::MAX
    } else {
        secs as i64
    };
    show_edge(to_rfc3339(Timestamp { secs: held, nanos: 0 }))
}

/// The moments between which the window round an event lies.
pub open spec fn window_edges(center: int, half: int) -> (Timestamp, Timestamp) {
    (Timestamp { secs: held_secs(center - half), nanos: 0 }, Timestamp { secs: held_secs(center + half), nanos: 0 })
}

/// The RFC 3339 texts of the window round an event.
pub fn window_bounds(center_ts_secs: i64, half_secs: i64) -> (r: (String, String))
    ensures
        r.0@ == edge_text(rfc3339_text(window_edges(center_ts_secs as int, half_secs as int).0)),
        r.1@ == edge_text(rfc3339_text(window_edges(center_ts_secs as int, half_secs as int).1)),
{
    (
        edge(center_ts_secs as i128 - half_secs as i128),
        edge(center_ts_secs as i128 + half_secs as i128),
    )
}

/// The highest of disk rates, read or written, at least one.
pub open spec fn disk_peak(rates: Seq<(Level, Level)>, n: int) -> Level
    decreases n,
{
    if n <= 0 {
        Level::At(0)
    } else {
        higher(disk_peak(rates, n - 1), higher(rates[n - 1].0, rates[n - 1].1))
    }
}

/// The top of the disk scale of a chart.
pub open spec fn disk_top(rates: Seq<(Level, Level)>) -> Level {
    higher(disk_peak(rates, rates.len() as int), Level::At(ONE))
}

/// The top of the disk scale of a chart: the highest mean rate, read or written, and at least one.
pub fn max_disk(rates: &Vec<(Level, Level)>) -> (m: Level)
    ensures
        m == disk_top(rates@),
{
    let mut m = Level::At(0);
    let mut i: usize = 0;
    while i < rates.len()
        invariant
            i <= rates@.len(),
            m == disk_peak(rates@, i as int),
        decreases rates@.len() - i,
    {
        m = m.max(rates[i].0.max(rates[i].1));
        i += 1;
    }
    m.max(Level::At(ONE))
}

/// The resources in use when an event happened.
#[derive(Clone, Copy, Debug, PartialEq, Eq)]
pub struct EventSnapshot {
    pub cpu: Level,
    pub mem: Level,
    pub disk_read: Level,
    pub disk_write: Level,
    pub gpu: Option<Level>,
}

/// Means over the samples round an event, as far as there are any.
#[derive(Clone, Copy, Debug, PartialEq, Eq)]
pub struct WindowMeans {
    pub cpu: Option<Level>,
    pub mem: Option<Level>,
    pub disk_read: Option<Level>,
    pub disk_write: Option<Level>,
    pub gpu: Option<Level>,
}

/// The resources in use when an event happened: the means round it where all are there, else the
/// nearest sample.
pub open spec fn snapshot_chosen(means: Option<WindowMeans>, nearest: Option<EventSnapshot>) -> Option<EventSnapshot> {
    match means {
        Some(WindowMeans { cpu: Some(c), mem: Some(m), disk_read: Some(dr), disk_write: Some(dw), gpu }) => Some(
            EventSnapshot { cpu: c, mem: m, disk_read: dr, disk_write: dw, gpu },
        ),
        _ => nearest,
    }
}

/// The resources in use when an event happened: the means round it where all are there, else the
/// nearest sample.
pub fn choose_snapshot(means: Option<WindowMeans>, nearest: Option<EventSnapshot>) -> (r: Option<EventSnapshot>)
    ensures
        r == snapshot_chosen(means, nearest),
{
    match means {
        Some(WindowMeans { cpu: Some(c), mem: Some(m), disk_read: Some(dr), disk_write: Some(dw), gpu }) => Some(
            EventSnapshot { cpu: c, mem: m, disk_read: dr, disk_write: dw, gpu },
        ),
        _ => nearest,
    }
}

} // verus!
