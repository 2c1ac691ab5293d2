//! What is stored, when it is written, how long it is kept, and how it is read back.

use crate::cause::{severity_word, CauseKind, EventModel, StutterEvent};
use crate::config::StorageConfig;
use crate::json::{json_texts, list_json, list_of, listed, texts_json};
use crate::labels::{lemma_severity_survives, parse_severity, severity_from};
use crate::text::{decimal_signed, decimal_signed_text, push_text, texts};
use crate::time_range::{days_before, minus_days};
use crate::timestamps::{parse_rfc3339, rfc3339_moment, show_moment, shown_moment, tellable};
use crate::types::{briefs, ProcessBrief, Sample, SampleModel, Timestamp};
use vstd::prelude::*;

verus! {

/// How many samples are gathered before they are written.
pub const FLUSH_SAMPLES: usize = 10;

/// After how long gathered samples are written anyhow.
pub const FLUSH_NS: u64 = 5_000_000_000;

/// What samples hold.
pub open spec fn sample_models(v: Seq<Sample>) -> Seq<SampleModel> {
    Seq::new(v.len(), |i: int| v[i]@)
}

/// Samples that wait to be written.
#[derive(Debug)]
pub struct SampleBuffer {
    samples: Vec<Sample>,
    last_flush: u64,
}

/// What a [`SampleBuffer`] holds.
pub struct BufferModel {
    pub samples: Seq<SampleModel>,
    /// When samples were last written, by a clock that is never set back.
    pub last_flush: u64,
}

impl View for SampleBuffer {
    type V = BufferModel;

    closed spec fn view(&self) -> BufferModel {
        BufferModel { samples: sample_models(self.samples@), last_flush: self.last_flush }
    }
}

/// Samples are to be written: enough are gathered, or the last writing is long enough ago.
pub open spec fn flush_due(b: BufferModel, now: u64) -> bool {
    b.samples.len() >= FLUSH_SAMPLES || now >= b.last_flush && now - b.last_flush >= FLUSH_NS
}

/// A buffer with one more sample.
pub open spec fn gathered(b: BufferModel, s: SampleModel) -> BufferModel {
    BufferModel { samples: b.samples.push(s), ..b }
}

/// A buffer once its samples were written.
pub open spec fn emptied(b: BufferModel, now: u64) -> BufferModel {
    if b.samples.len() == 0 {
        b
    } else {
        BufferModel { samples: seq![], last_flush: now }
    }
}

impl SampleBuffer {
    /// An empty buffer.
    pub fn new(now: u64) -> (b: SampleBuffer)
        ensures
            b@ == (BufferModel { samples: seq![], last_flush: now }),
    {
        let b = SampleBuffer { samples: Vec::new(), last_flush: now };
        proof {
            assert(b@.samples =~= seq![]);
        }
        b
    }

    /// Gathers a sample; says whether the samples are to be written now.
    pub fn write_sample(&mut self, sample: &Sample, now: u64) -> (due: bool)
        ensures
            final(self)@ == (BufferModel { samples: old(self)@.samples.push(sample@), ..old(self)@ }),
            due == flush_due(final(self)@, now),
            final(self)@ == gathered(old(self)@, sample@),
    {
        let ghost before = self.samples@;
        self.samples.push(sample.copy());
        proof {
            assert(sample_models(self.samples@) =~= sample_models(before).push(sample@));
        }
        self.samples.len() >= FLUSH_SAMPLES || now >= self.last_flush && now - self.last_flush >= FLUSH_NS
    }

    /// The samples that wait.
    pub fn pending(&self) -> (v: &Vec<Sample>)
        ensures
            sample_models(v@) == self@.samples,
    {
        &self.samples
    }

    /// The samples were written.
    pub fn flushed(&mut self, now: u64)
        ensures
            final(self)@ == (if old(self)@.samples.len() == 0 {
                old(self)@
            } else {
                BufferModel { samples: seq![], last_flush: now }
            }),
            final(self)@ == emptied(old(self)@, now),
    {
        if self.samples.len() == 0 {
            return;
        }
        self.samples.clear();
        self.last_flush = now;
        proof {
            assert(self@.samples =~= seq![]);
        }
    }
}

/// No more samples wait than are written at a time, as long as every due writing succeeds.
pub proof fn lemma_buffer_stays_small(b: BufferModel, s: SampleModel, now: u64)
    requires
        b.samples.len() < FLUSH_SAMPLES,
    ensures
        ({
            let after = BufferModel { samples: b.samples.push(s), ..b };
            !flush_due(after, now) ==> after.samples.len() < FLUSH_SAMPLES
        }),
{
}

/// The moments before which samples and events are no longer kept.
pub open spec fn cutoffs(config: StorageConfig, now: Timestamp) -> (Timestamp, Timestamp) {
    (days_before(now, config.retention_days as int), days_before(now, config.event_retention_days as int))
}

/// The RFC 3339 texts before which samples and events are no longer kept.
pub fn cleanup_cutoffs(config: &StorageConfig, now: Timestamp) -> (r: (String, String))
    ensures
        r.0@ == shown_moment(cutoffs(*config, now).0),
        r.1@ == shown_moment(cutoffs(*config, now).1),
{
    (
        show_moment(minus_days(now, config.retention_days)),
        show_moment(minus_days(now, config.event_retention_days)),
    )
}

/// A stored sample as it is exported. Rendered numbers have one decimal.
#[derive(Debug)]
pub struct ExportRow {
    pub timestamp: String,
    pub cpu_usage: Option<String>,
    pub cpu_freq_mhz: Option<String>,
    pub mem_usage_percent: Option<String>,
    pub mem_used_mb: Option<i64>,
    pub mem_total_mb: Option<i64>,
    pub mem_available_mb: Option<i64>,
    pub swap_usage_percent: Option<String>,
    pub disk_read_bps: Option<i64>,
    pub disk_write_bps: Option<i64>,
    pub net_sent_bps: Option<i64>,
    pub net_recv_bps: Option<i64>,
    pub net_sent_total: Option<i64>,
    pub net_recv_total: Option<i64>,
    pub gpu_usage: Option<String>,
    pub cpu_temp: Option<String>,
    pub gpu_temp: Option<String>,
    pub process_count: Option<i64>,
    pub thread_count: Option<i64>,
    pub commit_bytes: Option<i64>,
    pub commit_limit: Option<i64>,
    pub page_reads_per_sec: Option<String>,
}

/// A rendered number, zero where there is none.
pub open spec fn shown_real(s: Option<String>) -> Seq<char> {
    match s {
        Some(x) => x@,
        None => "0.0"@,
    }
}

/// A whole number, zero where there is none.
pub open spec fn shown_int(n: Option<i64>) -> Seq<char> {
    decimal_signed(
        match n {
            Some(x) => x as int,
            None => 0,
        },
    )
}

/// Bytes in whole megabytes, towards zero.
pub open spec fn megabytes(n: int) -> int {
    if n >= 0 {
        n / 1_048_576
    } else {
        -((-n) / 1_048_576)
    }
}

/// Bytes in whole megabytes, zero where there are none.
pub open spec fn shown_mb(n: Option<i64>) -> Seq<char> {
    decimal_signed(
        match n {
            Some(x) => megabytes(x as int),
            None => 0,
        },
    )
}

fn rendered(s: &Option<String>) -> (r: String)
    ensures
        r@ == shown_real(*s),
{
    match s {
        Some(x) => x.clone(),
        None => String::from_str("0.0"),
    }
}

fn whole(n: Option<i64>) -> (r: String)
    ensures
        r@ == shown_int(n),
{
    match n {
        Some(x) => decimal_signed_text(x),
        None => decimal_signed_text(0),
    }
}

fn in_megabytes(n: Option<i64>) -> (r: String)
    ensures
        r@ == shown_mb(n),
{
    let bytes: i128 = match n {
        Some(x) => x as i128,
        None => 0,
    };
    let mb: i128 = if bytes >= 0 {
        bytes / 1_048_576
    } else {
        -((-bytes) / 1_048_576)
    };
    decimal_signed_text(mb as i64)
}

/// The header of an export of samples.
pub open spec fn export_header() -> Seq<Seq<char>> {
    seq![
        "时间戳"@,
        "CPU 使用率(%)"@,
        "CPU 频率(MHz)"@,
        "内存使用率(%)"@,
        "内存已用(MB)"@,
        "内存总量(MB)"@,
        "内存可用(MB)"@,
        "交换分区使用率(%)"@,
        "磁盘读速率(B/s)"@,
        "磁盘写速率(B/s)"@,
        "网络发送速率(B/s)"@,
        "网络接收速率(B/s)"@,
        "网络累计发送(B)"@,
        "网络累计接收(B)"@,
        "GPU 使用率(%)"@,
        "CPU 温度(°C)"@,
        "GPU 温度(°C)"@,
        "进程数"@,
        "线程数"@,
        "提交电荷(MB)"@,
        "提交上限(MB)"@,
        "分页速率(/s)"@,
    ]
}

/// The header of an export of samples.
pub fn csv_header() -> (r: Vec<String>)
    ensures
        texts(r@) == export_header(),
{
    let mut r: Vec<String> = Vec::new();
    push_text(&mut r, String::from_str("时间戳"));
    push_text(&mut r, String::from_str("CPU 使用率(%)"));
    push_text(&mut r, String::from_str("CPU 频率(MHz)"));
    push_text(&mut r, String::from_str("内存使用率(%)"));
    push_text(&mut r, String::from_str("内存已用(MB)"));
    push_text(&mut r, String::from_str("内存总量(MB)"));
    push_text(&mut r, String::from_str("内存可用(MB)"));
    push_text(&mut r, String::from_str("交换分区使用率(%)"));
    push_text(&mut r, String::from_str("磁盘读速率(B/s)"));
    push_text(&mut r, String::from_str("磁盘写速率(B/s)"));
    push_text(&mut r, String::from_str("网络发送速率(B/s)"));
    push_text(&mut r, String::from_str("网络接收速率(B/s)"));
    push_text(&mut r, String::from_str("网络累计发送(B)"));
    push_text(&mut r, String::from_str("网络累计接收(B)"));
    push_text(&mut r, String::from_str("GPU 使用率(%)"));
    push_text(&mut r, String::from_str("CPU 温度(°C)"));
    push_text(&mut r, String::from_str("GPU 温度(°C)"));
    push_text(&mut r, String::from_str("进程数"));
    push_text(&mut r, String::from_str("线程数"));
    push_text(&mut r, String::from_str("提交电荷(MB)"));
    push_text(&mut r, String::from_str("提交上限(MB)"));
    push_text(&mut r, String::from_str("分页速率(/s)"));
    proof {
        assert(texts(r@) =~= export_header());
    }
    r
}

/// The record of a stored sample in an export.
pub open spec fn export_record(s: ExportRow) -> Seq<Seq<char>> {
    seq![
        s.timestamp@,
        shown_real(s.cpu_usage),
        shown_real(s.cpu_freq_mhz),
        shown_real(s.mem_usage_percent),
        shown_int(s.mem_used_mb),
        shown_int(s.mem_total_mb),
        shown_int(s.mem_available_mb),
        shown_real(s.swap_usage_percent),
        shown_int(s.disk_read_bps),
        shown_int(s.disk_write_bps),
        shown_int(s.net_sent_bps),
        shown_int(s.net_recv_bps),
        shown_int(s.net_sent_total),
        shown_int(s.net_recv_total),
        shown_real(s.gpu_usage),
        shown_real(s.cpu_temp),
        shown_real(s.gpu_temp),
        shown_int(s.process_count),
        shown_int(s.thread_count),
        shown_mb(s.commit_bytes),
        shown_mb(s.commit_limit),
        shown_real(s.page_reads_per_sec),
    ]
}

/// The record of a stored sample in an export.
pub fn csv_record(s: &ExportRow) -> (r: Vec<String>)
    ensures
        texts(r@) == export_record(*s),
{
    let mut r: Vec<String> = Vec::new();
    proof {
        assert(texts(r@) =~= Seq::<Seq<char>>::empty());
    }
    push_text(&mut r, s.timestamp.clone());
    push_text(&mut r, rendered(&s.cpu_usage));
    push_text(&mut r, rendered(&s.cpu_freq_mhz));
    push_text(&mut r, rendered(&s.mem_usage_percent));
    push_text(&mut r, whole(s.mem_used_mb));
    push_text(&mut r, whole(s.mem_total_mb));
    push_text(&mut r, whole(s.mem_available_mb));
    push_text(&mut r, rendered(&s.swap_usage_percent));
    push_text(&mut r, whole(s.disk_read_bps));
    push_text(&mut r, whole(s.disk_write_bps));
    push_text(&mut r, whole(s.net_sent_bps));
    push_text(&mut r, whole(s.net_recv_bps));
    push_text(&mut r, whole(s.net_sent_total));
    push_text(&mut r, whole(s.net_recv_total));
    push_text(&mut r, rendered(&s.gpu_usage));
    push_text(&mut r, rendered(&s.cpu_temp));
    push_text(&mut r, rendered(&s.gpu_temp));
    push_text(&mut r, whole(s.process_count));
    push_text(&mut r, whole(s.thread_count));
    push_text(&mut r, in_megabytes(s.commit_bytes));
    push_text(&mut r, in_megabytes(s.commit_limit));
    push_text(&mut r, rendered(&s.page_reads_per_sec));
    r
}

/// Every exported record has a field for each column of the header.
pub proof fn lemma_record_fits_header(s: ExportRow)
    ensures
        export_record(s).len() == export_header().len(),
{
}

/// The stored beginning of an event: zero where it is not known.
pub fn stored_onset(onset: Option<i64>) -> (r: i64)
    ensures
        r == onset_stored(onset),
{
    match onset {
        Some(t) => t,
        None => 0,
    }
}

/// The stored beginning of an event: zero where it is not known.
pub open spec fn onset_stored(onset: Option<i64>) -> i64 {
    match onset {
        Some(t) => t,
        None => 0,
    }
}

/// The beginning of an event as it is read back: only a positive number is one.
pub open spec fn onset_read(stored: i64) -> Option<i64> {
    if stored <= 0 {
        None
    } else {
        Some(stored)
    }
}

/// The beginning of an event survives being stored and read back, where it lies after the epoch or
/// is not known.
pub proof fn lemma_onset_survives(onset: Option<i64>)
    requires
        onset is Some ==> onset->0 > 0,
    ensures
        onset_read(onset_stored(onset)) == onset,
{
}

/// The columns of an event; those of kinds, samples and processes are not encoded.
#[derive(Debug)]
pub struct EventColumns {
    pub id: i64,
    pub timestamp: String,
    pub duration_ms: u64,
    pub severity: String,
    /// A JSON list of texts.
    pub causes: String,
    pub cause_kinds: Vec<CauseKind>,
    pub primary_cause: Option<CauseKind>,
    pub cause_first_touch: Vec<(CauseKind, i64)>,
    pub snapshot: Sample,
    pub culprits: Vec<ProcessBrief>,
    pub onset_ts: i64,
}

/// The event of columns; `moment` is what its stored text names, and now stands in where it names
/// nothing; `causes` is what its list of causes holds.
pub open spec fn event_read(
    c: EventColumns,
    moment: Option<Timestamp>,
    causes: Seq<Seq<char>>,
    now: Timestamp,
) -> EventModel {
    EventModel {
        id: c.id,
        timestamp: match moment {
            Some(t) => t,
            None => now,
        },
        duration_ms: c.duration_ms,
        severity: severity_from(c.severity@),
        causes,
        cause_kinds: c.cause_kinds@,
        primary_cause: c.primary_cause,
        cause_first_touch: c.cause_first_touch@,
        onset_ts: onset_read(c.onset_ts),
        snapshot: c.snapshot@,
        culprits: briefs(c.culprits@),
    }
}

/// Columns hold an event as it is stored.
pub open spec fn holds_event(c: EventColumns, e: EventModel) -> bool {
    &&& c.id == e.id
    &&& c.timestamp@ == shown_moment(e.timestamp)
    &&& c.duration_ms == e.duration_ms
    &&& c.severity@ == severity_word(e.severity)
    &&& c.causes@ == texts_json(e.causes)
    &&& c.cause_kinds@ == e.cause_kinds
    &&& c.primary_cause == e.primary_cause
    &&& c.cause_first_touch@ == e.cause_first_touch
    &&& c.snapshot@ == e.snapshot
    &&& briefs(c.culprits@) == e.culprits
    &&& c.onset_ts == onset_stored(e.onset_ts)
}

/// The columns in which an event is stored. Reading them back gives the event, whatever the time is
/// then, where its moment lies in the years 0 to 9999 and its beginning lies after the epoch or is not
/// known.
pub fn event_columns(e: &StutterEvent) -> (c: EventColumns)
    ensures
        holds_event(c, e@),
        json_texts(c.causes@) == Some(e@.causes),
        tellable(e.timestamp) ==> rfc3339_moment(c.timestamp@) == Some(e.timestamp),
        tellable(e.timestamp) && (e.onset_ts is Some ==> e.onset_ts->0 > 0) ==> forall|now: Timestamp|
            #[trigger] event_read(c, rfc3339_moment(c.timestamp@), listed(c.causes@), now) == e@,
{
    let ghost whole = e@;
    let e = e.copy();
    let c = EventColumns {
        id: e.id,
        timestamp: show_moment(e.timestamp),
        duration_ms: e.duration_ms,
        severity: e.severity.to_text(),
        causes: list_json(&e.causes),
        cause_kinds: e.cause_kinds,
        primary_cause: e.primary_cause,
        cause_first_touch: e.cause_first_touch,
        snapshot: e.snapshot,
        culprits: e.culprits,
        onset_ts: stored_onset(e.onset_ts),
    };
    proof {
        if tellable(whole.timestamp) && (whole.onset_ts is Some ==> whole.onset_ts->0 > 0) {
            assert forall|now: Timestamp| #[trigger] event_read(
                c,
                rfc3339_moment(c.timestamp@),
                listed(c.causes@),
                now,
            ) == whole by {
                lemma_event_survives(c, whole, now);
            }
        }
    }
    c
}

/// An event survives being stored and read back, where its texts name its moment and its causes, and
/// its beginning lies after the epoch or is not known.
pub proof fn lemma_event_survives(c: EventColumns, e: EventModel, now: Timestamp)
    requires
        holds_event(c, e),
        rfc3339_moment(c.timestamp@) == Some(e.timestamp),
        json_texts(c.causes@) == Some(e.causes),
        e.onset_ts is Some ==> e.onset_ts->0 > 0,
    ensures
        event_read(c, rfc3339_moment(c.timestamp@), listed(c.causes@), now) == e,
{
    lemma_severity_survives(e.severity);
    lemma_onset_survives(e.onset_ts);
}

/// The event of columns, given what its texts name.
pub fn restore_at(c: EventColumns, moment: Option<Timestamp>, causes: Vec<String>, now: Timestamp) -> (e: StutterEvent)
    ensures
        e@ == event_read(c, moment, texts(causes@), now),
{
    let timestamp = match moment {
        Some(t) => t,
        None => now,
    };
    let severity = parse_severity(c.severity.as_str());
    let onset_ts = if c.onset_ts <= 0 {
        None
    } else {
        Some(c.onset_ts)
    };
    StutterEvent {
        id: c.id,
        timestamp,
        duration_ms: c.duration_ms,
        severity,
        causes,
        cause_kinds: c.cause_kinds,
        primary_cause: c.primary_cause,
        cause_first_touch: c.cause_first_touch,
        onset_ts,
        snapshot: c.snapshot,
        culprits: c.culprits,
    }
}

/// The event of columns.
pub fn restore_event(c: EventColumns, now: Timestamp) -> (e: StutterEvent)
    ensures
        e@ == event_read(c, rfc3339_moment(c.timestamp@), listed(c.causes@), now),
{
    let moment = parse_rfc3339(c.timestamp.as_str());
    let causes = list_of(c.causes.as_str());
    restore_at(c, moment, causes, now)
}

} // verus!
