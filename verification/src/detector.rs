//! The stutter detector: from one sample per tick to stutter events.
//!
//! Each tick runs every signal of the system through its thresholds, collects the causes that
//! are active, and follows a stutter from the first tick with a cause to the first tick without
//! one. Numbers that need calculation come in as [`Figures`]; the clock and the answer of the
//! foreground window come in as arguments too, so that a tick is a function of its inputs.

use crate::cause::{key_of, kind_of, CauseKind, EventModel, Severity, StutterEvent};
use crate::cause::{cause_key, first_touch, pressure_kind};
use crate::config::{DetectionConfig, DetectionModel, Lines};
use crate::level::{above, at_most, higher, Level};
use crate::order::{ascending, ascending_order, positions, reordered};
use crate::text::{copy_texts, decimal, decimal_signed, decimal_signed_text, decimal_text, push_text, same_text, texts};
use crate::types::{briefs, copy_briefs, push_brief, top_merged, ProcessBrief, ProcessModel, Readings, Sample, SampleModel, Timestamp};
use vstd::prelude::*;

verus! {

/// The rank of 50, the CPU use in percent above which a lowered clock can be throttling.
pub const THERMAL_LOAD_MIN_USAGE: i64 = 0x4049_0000_0000_0000;

/// The rank of one.
pub const ONE: i64 = 0x3ff0_0000_0000_0000;

/// How many samples of the past are kept.
pub const HISTORY_MAX: usize = 120;

/// How many samples a spike check needs: the recent ones and the baseline before them.
pub const SPIKE_WINDOW: usize = 70;

/// How many samples of the window are recent.
pub const SPIKE_RECENT: usize = 10;

/// How many recent samples must exceed the baseline.
pub const SPIKE_CONFIRM_MIN: usize = 6;

/// Nanoseconds in a second.
pub const NS_PER_SEC: u64 = 1_000_000_000;

/// Nanoseconds in a millisecond.
pub const NS_PER_MS: u64 = 1_000_000;

/// The time between two probes of the foreground window.
pub const UI_PROBE_INTERVAL_NS: u64 = 2_000_000_000;

/// The clock at a tick: Unix time, and a clock that is never set back.
#[derive(Clone, Copy, Debug, PartialEq, Eq)]
pub struct Clock {
    pub wall_ns: u64,
    pub steady_ns: u64,
}

/// What the detector keeps of a past sample.
#[derive(Clone, Copy, Debug, PartialEq, Eq)]
pub struct HistoryPoint {
    pub cpu_usage: Level,
    pub net_sent_bps: u64,
    pub net_recv_bps: u64,
    pub mem_available_mb: u64,
}

/// A signal with hysteresis.
#[derive(Clone, Copy, Debug, PartialEq, Eq)]
pub struct Latch {
    pub active: bool,
    /// Since when the signal is held by hysteresis alone.
    pub band_since: Option<u64>,
}

/// The water mark of memory.
#[derive(Clone, Copy, Debug, PartialEq, Eq)]
pub struct MemLatch {
    pub active: bool,
    /// Whether the mark was active for so long that it is no longer reported.
    pub suppressed: bool,
    pub active_since: Option<u64>,
    pub band_since: Option<u64>,
}

/// The states of all signals between ticks.
#[derive(Clone, Copy, Debug, PartialEq, Eq)]
pub struct Signals {
    pub cpu: Latch,
    pub mem_level: MemLatch,
    pub disk_busy: Latch,
    pub dpc: Latch,
    pub interrupt: Latch,
    pub ctx_switch: Latch,
    pub thermal_active: bool,
    pub cpu_spike_active: bool,
    pub net_spike_active: bool,
    pub mem_spike_active: bool,
    pub ui_freeze_active: bool,
}

/// A signal that has not started.
pub open spec fn idle_latch() -> Latch {
    Latch { active: false, band_since: None }
}

/// Signals before anything was measured.
pub open spec fn quiet() -> Signals {
    Signals {
        cpu: idle_latch(),
        mem_level: MemLatch { active: false, suppressed: false, active_since: None, band_since: None },
        disk_busy: idle_latch(),
        dpc: idle_latch(),
        interrupt: idle_latch(),
        ctx_switch: idle_latch(),
        thermal_active: false,
        cpu_spike_active: false,
        net_spike_active: false,
        mem_spike_active: false,
        ui_freeze_active: false,
    }
}

fn quiet_signals() -> (s: Signals)
    ensures
        s == quiet(),
{
    let idle = Latch { active: false, band_since: None };
    Signals {
        cpu: idle,
        mem_level: MemLatch { active: false, suppressed: false, active_since: None, band_since: None },
        disk_busy: idle,
        dpc: idle,
        interrupt: idle,
        ctx_switch: idle,
        thermal_active: false,
        cpu_spike_active: false,
        net_spike_active: false,
        mem_spike_active: false,
        ui_freeze_active: false,
    }
}

/// A recent value and its rise over the baseline, as a multiple of the baseline.
#[derive(Clone, Copy, Debug, PartialEq, Eq)]
pub struct Rise {
    pub value: Level,
    pub rise: Level,
}

/// The averages of a spike check on a rate.
#[derive(Debug)]
pub struct SpikeFigures {
    /// The mean of the baseline.
    pub baseline: Level,
    pub baseline_text: String,
    pub recent_text: String,
    /// The recent values.
    pub rises: Vec<Rise>,
    /// The rise of the recent mean, zero where it fell.
    pub mean_rise: Level,
}

/// The averages of the check for a sudden loss of available memory.
#[derive(Debug)]
pub struct DropFigures {
    /// The mean of the baseline.
    pub baseline: Level,
    /// The fall of the recent mean as a share of the baseline, zero where it rose.
    pub fall: Level,
    pub baseline_text: String,
    pub recent_text: String,
}

/// The numbers round the peak clock.
#[derive(Debug)]
pub struct ThermalFigures {
    /// The remembered peak clock after fading.
    pub faded_peak: Level,
    /// The line under the new peak below which the clock counts as lowered.
    pub drop_line: Level,
    pub temp_text: String,
    pub freq_text: String,
    pub peak_text: String,
    pub drop_percent: i32,
}

/// What has been calculated for a tick.
#[derive(Debug)]
pub struct Figures {
    pub cpu_text: String,
    pub mem_text: String,
    pub page_reads_text: String,
    pub disk_busy_text: String,
    pub disk_io_text: String,
    pub dpc_text: String,
    pub interrupt_text: String,
    pub ctx_switch_text: String,
    /// The commit charge in percent of its limit, zero where there is no limit.
    pub commit_percent: Level,
    pub thermal: ThermalFigures,
    /// The spike figures over the window; not read while the window is short.
    pub cpu_spike: SpikeFigures,
    pub net_spike: SpikeFigures,
    pub mem_drop: DropFigures,
}

/// The time from `since` to `now`, none where the clock went back.
pub open spec fn passed(since: u64, now: u64) -> int {
    if now >= since {
        now - since
    } else {
        0
    }
}

fn passed_ns(since: u64, now: u64) -> (d: u64)
    ensures
        d == passed(since, now),
{
    if now >= since {
        now - since
    } else {
        0
    }
}

/// One step of hysteresis: a signal starts over one line, ends once it is calm, and stays as it is
/// in between.
pub open spec fn hysteresis(active: bool, over: bool, calm: bool) -> bool {
    if over {
        true
    } else if calm {
        false
    } else {
        active
    }
}

/// One step of the limit on holding: a signal that hysteresis alone has held for the longest
/// allowed time is released, and one that is over its line again starts anew.
pub open spec fn band_hold(l: Latch, over: bool, max_hold_secs: u32, now: u64) -> Latch {
    if !l.active {
        idle_latch()
    } else if over {
        Latch { active: true, band_since: None }
    } else {
        let from = match l.band_since {
            Some(t) => t,
            None => now,
        };
        if passed(from, now) >= max_hold_secs * NS_PER_SEC {
            idle_latch()
        } else {
            Latch { active: true, band_since: Some(from) }
        }
    }
}

/// The hysteresis and the holding limit of one signal together.
pub open spec fn latched(l: Latch, over: bool, calm: bool, max_hold_secs: u32, now: u64) -> Latch {
    band_hold(Latch { active: hysteresis(l.active, over, calm), ..l }, over, max_hold_secs, now)
}

/// Releases a signal that hysteresis alone has held too long.
pub fn band_hold_step(latch: &mut Latch, over_entry: bool, max_hold_secs: u32, now: u64)
    ensures
        *final(latch) == band_hold(*old(latch), over_entry, max_hold_secs, now),
{
    if !latch.active {
        latch.band_since = None;
        return;
    }
    if over_entry {
        latch.band_since = None;
        return;
    }
    let from: u64 = match latch.band_since {
        Some(t) => t,
        None => now,
    };
    if passed_ns(from, now) >= max_hold_secs as u64 * NS_PER_SEC {
        latch.active = false;
        latch.band_since = None;
    } else {
        latch.band_since = Some(from);
    }
}

/// One step of hysteresis on a reading: it starts above the threshold and ends below the exit line.
pub fn sys_signal_hysteresis(active: bool, value: Level, threshold: Level, exit: Level) -> (r: bool)
    ensures
        r == hysteresis(active, above(value, threshold), above(exit, value)),
{
    if value.gt(threshold) {
        true
    } else if exit.gt(value) {
        false
    } else {
        active
    }
}

/// The signal of one reading.
pub open spec fn reading_next(l: Latch, value: Level, threshold: Level, exit: Level, max_hold_secs: u32, now: Clock) -> Latch {
    latched(l, above(value, threshold), above(exit, value), max_hold_secs, now.steady_ns)
}

fn step_reading(l: Latch, value: Level, threshold: Level, exit: Level, max_hold_secs: u32, now: Clock) -> (r: Latch)
    ensures
        r == reading_next(l, value, threshold, exit, max_hold_secs, now),
{
    let mut r = Latch { active: sys_signal_hysteresis(l.active, value, threshold, exit), band_since: l.band_since };
    band_hold_step(&mut r, value.gt(threshold), max_hold_secs, now.steady_ns);
    r
}

/// Memory use is over its line.
pub open spec fn mem_usage_over(lines: Lines, r: Readings) -> bool {
    above(r.mem_usage_percent, lines.mem_threshold_percent)
}

/// Available memory is under its line.
pub open spec fn mem_available_under(lines: Lines, r: Readings) -> bool {
    r.mem_available_mb < lines.mem_threshold_mb
}

/// Both memory readings are back behind their exit lines.
pub open spec fn mem_calm(lines: Lines, r: Readings) -> bool {
    at_most(r.mem_usage_percent, lines.mem_exit_percent) && r.mem_available_mb >= lines.mem_available_exit_mb
}

/// The water mark has been active for so long that it is a steady state.
pub open spec fn mem_chronic(lines: Lines, since: Option<u64>, now: u64) -> bool {
    match since {
        Some(t) => now >= t && now - t >= lines.mem_chronic_seconds * NS_PER_SEC,
        None => false,
    }
}

/// The water mark of memory: inactive, active, or suppressed after a long time, until memory is calm.
pub open spec fn mem_next(lines: Lines, s: MemLatch, r: Readings, now: Clock) -> MemLatch {
    let entry = mem_usage_over(lines, r) || mem_available_under(lines, r);
    let calm = mem_calm(lines, r);
    let t = if s.suppressed {
        MemLatch { suppressed: !calm, ..s }
    } else if !s.active {
        if entry {
            MemLatch { active: true, active_since: Some(now.wall_ns), ..s }
        } else {
            s
        }
    } else if calm {
        MemLatch { active: false, active_since: None, ..s }
    } else if mem_chronic(lines, s.active_since, now.wall_ns) {
        MemLatch { active: false, suppressed: true, active_since: None, ..s }
    } else {
        s
    };
    let held = band_hold(
        Latch { active: t.active, band_since: t.band_since },
        entry,
        lines.hysteresis_hold_max_secs,
        now.steady_ns,
    );
    MemLatch {
        active: held.active,
        suppressed: t.suppressed,
        active_since: if held.active {
            t.active_since
        } else {
            None
        },
        band_since: held.band_since,
    }
}

/// The disk is busy by either measure.
pub open spec fn disk_over(lines: Lines, r: Readings) -> bool {
    above(r.disk_busy_percent, lines.disk_busy_threshold_percent) || above(r.disk_avg_io_ms, lines.disk_io_threshold_ms)
}

/// The disk is calm by both measures: each lies below its exit line.
pub open spec fn disk_calm(lines: Lines, r: Readings) -> bool {
    above(lines.disk_busy_exit, r.disk_busy_percent) && above(lines.disk_io_exit, r.disk_avg_io_ms)
}

/// The clock lies clearly under its recent peak.
pub open spec fn freq_dropped(freq: Level, peak: Option<Level>, f: Figures) -> bool {
    match peak {
        Some(p) => above(p, Level::At(0)) && above(f.thermal.drop_line, freq),
        None => false,
    }
}

/// The throttling signal: hot, slowed and under load, all at once; kept where nothing was measured.
pub open spec fn thermal_next(lines: Lines, active: bool, r: Readings, peak: Option<Level>, f: Figures) -> bool {
    match (r.cpu_temp, r.cpu_freq_mhz) {
        (Some(t), Some(freq)) => above(t, lines.thermal_threshold_celsius) && freq_dropped(freq, peak, f) && above(
            r.cpu_usage,
            Level::At(THERMAL_LOAD_MIN_USAGE),
        ),
        _ => active,
    }
}

/// All signals with thresholds.
pub open spec fn hard_next(lines: Lines, s: Signals, r: Readings, peak: Option<Level>, f: Figures, now: Clock) -> Signals {
    let hold = lines.hysteresis_hold_max_secs;
    Signals {
        cpu: reading_next(s.cpu, r.cpu_usage, lines.cpu_threshold, lines.cpu_exit, hold, now),
        mem_level: mem_next(lines, s.mem_level, r, now),
        disk_busy: latched(s.disk_busy, disk_over(lines, r), disk_calm(lines, r), hold, now.steady_ns),
        dpc: reading_next(s.dpc, r.dpc_percent, lines.dpc_threshold_percent, lines.dpc_exit, hold, now),
        interrupt: reading_next(
            s.interrupt,
            r.interrupt_percent,
            lines.interrupt_threshold_percent,
            lines.interrupt_exit,
            hold,
            now,
        ),
        ctx_switch: reading_next(
            s.ctx_switch,
            r.context_switches_per_sec,
            lines.context_switch_threshold_per_sec,
            lines.context_switch_exit,
            hold,
            now,
        ),
        thermal_active: thermal_next(lines, s.thermal_active, r, peak, f),
        ..s
    }
}

/// Something besides the paging rate shows that memory or disk is under pressure.
pub open spec fn paging_evidence(lines: Lines, commit_percent: Level, r: Readings) -> bool {
    above(commit_percent, lines.commit_threshold_percent) || mem_usage_over(lines, r) || mem_available_under(lines, r)
        || disk_over(lines, r)
}

/// Paging counts as a cause.
pub open spec fn paging_counts(lines: Lines, commit_percent: Level, r: Readings) -> bool {
    above(r.page_reads_per_sec, lines.page_reads_threshold) && paging_evidence(lines, commit_percent, r)
}

/// Causes with what the CPU signal adds.
pub open spec fn cpu_report(cfg: DetectionModel, s: Signals, r: Readings, f: Figures, causes: Seq<Seq<char>>) -> Seq<Seq<char>> {
    if !s.cpu.active {
        causes
    } else if above(r.cpu_usage, cfg.lines.cpu_threshold) {
        causes.push("CPU usage "@ + f.cpu_text@ + "% > "@ + cfg.texts.cpu_threshold + "%"@)
    } else {
        causes.push("CPU usage "@ + f.cpu_text@ + "%（滞回保持，阈值 "@ + cfg.texts.cpu_threshold + "%）"@)
    }
}

/// Causes with what memory adds: the water mark by either reading, and paging.
pub open spec fn mem_report(cfg: DetectionModel, s: Signals, r: Readings, f: Figures, causes: Seq<Seq<char>>) -> Seq<Seq<char>> {
    let c1 = if s.mem_level.active && mem_available_under(cfg.lines, r) {
        causes.push(
            "Available memory "@ + decimal(r.mem_available_mb as nat) + "MB < "@ + decimal(
                cfg.lines.mem_threshold_mb as nat,
            ) + "MB"@,
        )
    } else {
        causes
    };
    let c2 = if s.mem_level.active && mem_usage_over(cfg.lines, r) {
        c1.push("Memory usage "@ + f.mem_text@ + "% > "@ + cfg.texts.mem_threshold_percent + "%"@)
    } else {
        c1
    };
    if paging_counts(cfg.lines, f.commit_percent, r) {
        c2.push("Memory paging "@ + f.page_reads_text@ + "/s > "@ + cfg.texts.page_reads_threshold + "/s"@)
    } else {
        c2
    }
}

/// Causes with what the disk signal adds.
pub open spec fn disk_report(s: Signals, f: Figures, causes: Seq<Seq<char>>) -> Seq<Seq<char>> {
    if s.disk_busy.active {
        causes.push("Disk busy "@ + f.disk_busy_text@ + "% (IO "@ + f.disk_io_text@ + "ms)"@)
    } else {
        causes
    }
}

/// Causes with what deferred calls, interrupts and context switches add.
pub open spec fn core_report(cfg: DetectionModel, s: Signals, f: Figures, causes: Seq<Seq<char>>) -> Seq<Seq<char>> {
    let c1 = if s.dpc.active {
        causes.push("DPC time "@ + f.dpc_text@ + "% > "@ + cfg.texts.dpc_threshold_percent + "%"@)
    } else {
        causes
    };
    let c2 = if s.interrupt.active {
        c1.push("Interrupt time "@ + f.interrupt_text@ + "% > "@ + cfg.texts.interrupt_threshold_percent + "%"@)
    } else {
        c1
    };
    if s.ctx_switch.active {
        c2.push(
            "Context switches "@ + f.ctx_switch_text@ + "/s > "@ + cfg.texts.context_switch_threshold_per_sec + "/s"@,
        )
    } else {
        c2
    }
}

/// Causes with what the throttling signal adds.
pub open spec fn thermal_report(s: Signals, r: Readings, f: Figures, causes: Seq<Seq<char>>) -> Seq<Seq<char>> {
    if s.thermal_active && r.cpu_temp is Some {
        causes.push(
            "Thermal throttle: CPU "@ + f.thermal.temp_text@ + "°C, freq "@ + f.thermal.freq_text@ + "MHz < "@
                + f.thermal.peak_text@ + "MHz (drop "@ + decimal_signed(f.thermal.drop_percent as int) + "%)"@,
        )
    } else {
        causes
    }
}

/// The causes by threshold, once the signals have been stepped.
pub open spec fn hard_causes(cfg: DetectionModel, s: Signals, r: Readings, f: Figures) -> Seq<Seq<char>> {
    thermal_report(
        s,
        r,
        f,
        core_report(cfg, s, f, disk_report(s, f, mem_report(cfg, s, r, f, cpu_report(cfg, s, r, f, seq![])))),
    )
}

/// Where the recent ones of `len` points begin.
pub open spec fn recent_from(len: int) -> int {
    if len <= SPIKE_RECENT {
        0
    } else {
        len - SPIKE_RECENT
    }
}

/// The traffic of a point in both directions.
pub open spec fn traffic(p: HistoryPoint) -> int {
    p.net_sent_bps + p.net_recv_bps
}

/// Some points of a window, measurement by measurement.
#[derive(Debug)]
pub struct PointColumns {
    pub cpu: Vec<Level>,
    pub net: Vec<u128>,
    pub mem: Vec<u64>,
}

impl PointColumns {
    /// The columns of points.
    pub open spec fn hold(&self, points: Seq<HistoryPoint>) -> bool {
        &&& self.cpu@ == Seq::new(points.len(), |i: int| points[i].cpu_usage)
        &&& self.net@ == Seq::new(points.len(), |i: int| traffic(points[i]) as u128)
        &&& self.mem@ == Seq::new(points.len(), |i: int| points[i].mem_available_mb)
    }
}

fn columns_between(points: &Vec<HistoryPoint>, from: usize, to: usize) -> (c: PointColumns)
    requires
        from <= to <= points@.len(),
    ensures
        c.hold(points@.subrange(from as int, to as int)),
{
    let mut c = PointColumns { cpu: Vec::new(), net: Vec::new(), mem: Vec::new() };
    let ghost part = points@.subrange(from as int, to as int);
    let mut i: usize = from;
    proof {
        let none = part.take(0);
        assert(c.cpu@ =~= Seq::new(none.len(), |k: int| none[k].cpu_usage));
        assert(c.net@ =~= Seq::new(none.len(), |k: int| traffic(none[k]) as u128));
        assert(c.mem@ =~= Seq::new(none.len(), |k: int| none[k].mem_available_mb));
    }
    while i < to
        invariant
            from <= i <= to <= points@.len(),
            part == points@.subrange(from as int, to as int),
            c.hold(part.take(i - from)),
        decreases to - i,
    {
        let p = points[i];
        c.cpu.push(p.cpu_usage);
        c.net.push(p.net_sent_bps as u128 + p.net_recv_bps as u128);
        c.mem.push(p.mem_available_mb);
        i += 1;
        proof {
            let now = part.take(i - from);
            assert(now.last() == p);
            assert(c.cpu@ =~= Seq::new(now.len(), |k: int| now[k].cpu_usage));
            assert(c.net@ =~= Seq::new(now.len(), |k: int| traffic(now[k]) as u128));
            assert(c.mem@ =~= Seq::new(now.len(), |k: int| now[k].mem_available_mb));
        }
    }
    proof {
        assert(part.take(to - from) =~= part);
    }
    c
}

/// The points of a history that a spike check looks at, once there are enough.
pub open spec fn window_of(history: Seq<HistoryPoint>) -> Option<Seq<HistoryPoint>> {
    if history.len() >= SPIKE_WINDOW {
        Some(history.skip(history.len() - SPIKE_WINDOW))
    } else {
        None
    }
}

/// The columns of a window: of the baseline, and of the recent points behind it.
pub fn window_columns(points: &Vec<HistoryPoint>) -> (r: (PointColumns, PointColumns))
    ensures
        r.0.hold(points@.take(recent_from(points@.len() as int))),
        r.1.hold(points@.skip(recent_from(points@.len() as int))),
{
    let len: usize = points.len();
    let split: usize = if len <= SPIKE_RECENT {
        0
    } else {
        len - SPIKE_RECENT
    };
    proof {
        assert(points@.subrange(0, split as int) =~= points@.take(split as int));
        assert(points@.subrange(split as int, len as int) =~= points@.skip(split as int));
    }
    (columns_between(points, 0, split), columns_between(points, split, len))
}

/// A recent value is a spike: high enough in itself, and far enough over the baseline.
pub open spec fn spike_value(f: SpikeFigures, r: Rise, threshold: Level, min_abs: Level) -> bool {
    at_most(min_abs, r.value) && above(f.baseline, Level::At(ONE)) && above(r.value, f.baseline) && above(
        r.rise,
        threshold,
    )
}

/// How many of the first `n` recent values are spikes.
pub open spec fn spike_count(f: SpikeFigures, threshold: Level, min_abs: Level, n: int) -> int
    decreases n,
{
    if n <= 0 {
        0
    } else {
        spike_count(f, threshold, min_abs, n - 1) + if spike_value(f, f.rises@[n - 1], threshold, min_abs) {
            1int
        } else {
            0
        }
    }
}

/// One step of a spike signal: confirmed by enough recent values, released once the recent mean
/// has come down clearly, kept in between.
pub open spec fn spike_next(active: bool, f: SpikeFigures, threshold: Level, release: Level, min_abs: Level) -> bool {
    if spike_count(f, threshold, min_abs, f.rises@.len() as int) >= SPIKE_CONFIRM_MIN {
        true
    } else if at_most(f.baseline, Level::At(ONE)) || above(release, f.mean_rise) {
        false
    } else {
        active
    }
}

/// Causes with what a spike signal adds.
pub open spec fn spike_report(active: bool, f: SpikeFigures, name: Seq<char>, unit: Seq<char>, causes: Seq<Seq<char>>) -> Seq<Seq<char>> {
    if active {
        causes.push(name + " spike: "@ + f.baseline_text@ + unit + " → "@ + f.recent_text@ + unit)
    } else {
        causes
    }
}

/// The signal of a sudden loss of available memory; kept where the baseline says nothing.
pub open spec fn drop_next(active: bool, f: DropFigures, lines: Lines) -> bool {
    if !above(f.baseline, Level::At(ONE)) {
        active
    } else if above(f.fall, lines.spike_ratio) {
        true
    } else if above(lines.spike_release, f.fall) {
        false
    } else {
        active
    }
}

/// The spike signals; kept while the history is short.
pub open spec fn spikes_next(lines: Lines, s: Signals, history: int, f: Figures) -> Signals {
    if history < SPIKE_WINDOW {
        s
    } else {
        Signals {
            cpu_spike_active: spike_next(
                s.cpu_spike_active,
                f.cpu_spike,
                lines.spike_ratio,
                lines.spike_release,
                lines.spike_min_cpu_percent,
            ),
            net_spike_active: spike_next(
                s.net_spike_active,
                f.net_spike,
                lines.spike_ratio,
                lines.spike_release,
                lines.spike_min_bps,
            ),
            mem_spike_active: drop_next(s.mem_spike_active, f.mem_drop, lines),
            ..s
        }
    }
}

/// The causes by spikes, behind the causes by threshold.
pub open spec fn spike_causes(s: Signals, history: int, f: Figures, causes: Seq<Seq<char>>) -> Seq<Seq<char>> {
    if history < SPIKE_WINDOW {
        causes
    } else {
        let c1 = spike_report(s.cpu_spike_active, f.cpu_spike, "CPU"@, "%"@, causes);
        let c2 = spike_report(s.net_spike_active, f.net_spike, "Network"@, "B/s"@, c1);
        if above(f.mem_drop.baseline, Level::At(ONE)) && s.mem_spike_active {
            c2.push(
                "Memory available spike: "@ + f.mem_drop.baseline_text@ + "MB → "@ + f.mem_drop.recent_text@ + "MB"@,
            )
        } else {
            c2
        }
    }
}

/// What a [`Detector`] holds.
pub struct DetectorModel {
    pub config: DetectionModel,
    pub history: Seq<HistoryPoint>,
    /// When the stutter that is followed began.
    pub stutter_start: Option<u64>,
    pub causes: Seq<Seq<char>>,
    pub signals: Signals,
    pub last_ui_probe: Option<u64>,
    pub last_tick: Option<u64>,
    /// The processes seen during the stutter, each with its highest use.
    pub culprits: Seq<ProcessModel>,
    /// When each kind of cause was first seen.
    pub first_touch: Seq<(CauseKind, u64)>,
    pub need_snapshot: bool,
    pub freq_peak: Option<Level>,
}

/// A detector that has seen nothing.
pub open spec fn fresh(config: DetectionModel) -> DetectorModel {
    DetectorModel {
        config,
        history: seq![],
        stutter_start: None,
        causes: seq![],
        signals: quiet(),
        last_ui_probe: None,
        last_tick: None,
        culprits: seq![],
        first_touch: seq![],
        need_snapshot: false,
        freq_peak: None,
    }
}

/// The sampling was interrupted before this tick: the time since the last one is too long.
pub open spec fn interrupted(m: DetectorModel, now: Clock) -> bool {
    match m.last_tick {
        Some(last) => now.wall_ns > last && now.wall_ns - last > m.config.lines.max_tick_gap_secs * NS_PER_SEC,
        None => false,
    }
}

/// Everything that spans ticks is forgotten, but for the peak clock and the last probe.
pub open spec fn forgotten(m: DetectorModel) -> DetectorModel {
    DetectorModel { last_ui_probe: m.last_ui_probe, last_tick: m.last_tick, freq_peak: m.freq_peak, ..fresh(m.config) }
}

/// What is kept of a sample.
pub open spec fn point_of(r: Readings) -> HistoryPoint {
    HistoryPoint {
        cpu_usage: r.cpu_usage,
        net_sent_bps: r.net_sent_bps,
        net_recv_bps: r.net_recv_bps,
        mem_available_mb: r.mem_available_mb,
    }
}

/// The history with one more sample, the oldest dropped where it is full.
pub open spec fn remembered(history: Seq<HistoryPoint>, p: HistoryPoint) -> Seq<HistoryPoint> {
    let longer = history.push(p);
    if longer.len() > HISTORY_MAX {
        longer.skip(1)
    } else {
        longer
    }
}

/// The peak clock: a reading, or the faded former peak where that is higher.
pub open spec fn peak_next(peak: Option<Level>, freq: Option<Level>, faded: Level) -> Option<Level> {
    match freq {
        Some(f) => match peak {
            Some(_) => Some(higher(faded, f)),
            None => Some(f),
        },
        None => peak,
    }
}

/// The detector once the sample has been taken in and the signals have been stepped, and the
/// causes that this tick has.
pub open spec fn observed(m: DetectorModel, r: Readings, f: Figures, now: Clock) -> (DetectorModel, Seq<Seq<char>>) {
    let m1 = if interrupted(m, now) {
        forgotten(m)
    } else {
        m
    };
    let history = remembered(m1.history, point_of(r));
    let peak = peak_next(m1.freq_peak, r.cpu_freq_mhz, f.thermal.faded_peak);
    let hard = hard_next(m.config.lines, m1.signals, r, peak, f, now);
    let signals = spikes_next(m.config.lines, hard, history.len() as int, f);
    let causes = spike_causes(signals, history.len() as int, f, hard_causes(m.config, hard, r, f));
    (DetectorModel { history, signals, freq_peak: peak, last_tick: Some(now.wall_ns), ..m1 }, causes)
}

/// The foreground window may be probed again.
pub open spec fn probe_allowed(last: Option<u64>, now: Clock) -> bool {
    match last {
        Some(t) => passed(t, now.steady_ns) >= UI_PROBE_INTERVAL_NS,
        None => true,
    }
}

/// A tick probes the foreground window: it has a cause, and the last probe is long enough ago.
pub open spec fn probes(m: DetectorModel, r: Readings, f: Figures, now: Clock) -> bool {
    let (seen, causes) = observed(m, r, f, now);
    causes.len() > 0 && probe_allowed(seen.last_ui_probe, now)
}

/// The index of the first process with this id, from `i` on.
pub open spec fn pid_at(s: Seq<ProcessModel>, pid: u32, i: int) -> int
    decreases s.len() - i,
{
    if i >= s.len() || s[i].pid == pid {
        i
    } else {
        pid_at(s, pid, i + 1)
    }
}

/// The processes seen so far, with one more sighting.
pub open spec fn sighted(culprits: Seq<ProcessModel>, p: ProcessModel) -> Seq<ProcessModel> {
    let i = pid_at(culprits, p.pid, 0);
    if i < culprits.len() {
        culprits.update(
            i,
            ProcessModel {
                cpu_usage: higher(culprits[i].cpu_usage, p.cpu_usage),
                mem_used_mb: if culprits[i].mem_used_mb >= p.mem_used_mb {
                    culprits[i].mem_used_mb
                } else {
                    p.mem_used_mb
                },
                ..culprits[i]
            },
        )
    } else {
        culprits.push(p)
    }
}

/// The processes seen so far, with the sightings of a sample.
pub open spec fn sighted_all(culprits: Seq<ProcessModel>, seen: Seq<ProcessModel>) -> Seq<ProcessModel>
    decreases seen.len(),
{
    if seen.len() == 0 {
        culprits
    } else {
        sighted(sighted_all(culprits, seen.drop_last()), seen.last())
    }
}

/// Whether a kind has been seen.
pub open spec fn has_touch(touches: Seq<(CauseKind, u64)>, k: CauseKind) -> bool {
    exists|i: int| 0 <= i < touches.len() && (#[trigger] touches[i]).0 == k
}

/// The first sightings of kinds, with the sighting of a cause.
pub open spec fn touched(touches: Seq<(CauseKind, u64)>, cause: Seq<char>, now: u64) -> Seq<(CauseKind, u64)> {
    match kind_of(cause) {
        Some(k) => if has_touch(touches, k) {
            touches
        } else {
            touches.push((k, now))
        },
        None => touches,
    }
}

/// The first sightings of kinds, with the sightings of several causes.
pub open spec fn touched_all(touches: Seq<(CauseKind, u64)>, causes: Seq<Seq<char>>, now: u64) -> Seq<(CauseKind, u64)>
    decreases causes.len(),
{
    if causes.len() == 0 {
        touches
    } else {
        touched(touched_all(touches, causes.drop_last(), now), causes.last(), now)
    }
}

/// The index of the first cause with this key, from `i` on.
pub open spec fn key_at(causes: Seq<Seq<char>>, key: Seq<char>, i: int) -> int
    decreases causes.len() - i,
{
    if i >= causes.len() || key_of(causes[i]) == key {
        i
    } else {
        key_at(causes, key, i + 1)
    }
}

/// The causes of a stutter and their first sightings, with the causes of one more tick: a cause
/// of a known key takes the place of the former text, any other is added.
pub open spec fn causes_joined(
    causes: Seq<Seq<char>>,
    touches: Seq<(CauseKind, u64)>,
    new: Seq<Seq<char>>,
    now: u64,
) -> (Seq<Seq<char>>, Seq<(CauseKind, u64)>)
    decreases new.len(),
{
    if new.len() == 0 {
        (causes, touches)
    } else {
        let (c, t) = causes_joined(causes, touches, new.drop_last(), now);
        let i = key_at(c, key_of(new.last()), 0);
        if i < c.len() {
            (c.update(i, new.last()), t)
        } else {
            (c.push(new.last()), touched(t, new.last(), now))
        }
    }
}

/// The text of a frozen foreground window.
pub open spec fn freeze_text(lines: Lines) -> Seq<char> {
    "UI frozen (前台窗口无响应 "@ + decimal(lines.ui_freeze_timeout_ms as nat) + "ms)"@
}

/// A tick with causes: the stutter begins or goes on.
pub open spec fn followed(m: DetectorModel, causes: Seq<Seq<char>>, seen: Seq<ProcessModel>, now: Clock, frozen: bool) -> DetectorModel {
    let probed = probe_allowed(m.last_ui_probe, now);
    let freeze = if probed {
        frozen
    } else {
        m.signals.ui_freeze_active
    };
    let all = if freeze {
        causes.push(freeze_text(m.config.lines))
    } else {
        causes
    };
    let (joined, touches) = if m.stutter_start is Some {
        causes_joined(m.causes, m.first_touch, all, now.wall_ns)
    } else {
        (all, touched_all(m.first_touch, all, now.wall_ns))
    };
    DetectorModel {
        stutter_start: if m.stutter_start is Some {
            m.stutter_start
        } else {
            Some(now.wall_ns)
        },
        causes: joined,
        first_touch: touches,
        culprits: sighted_all(m.culprits, seen),
        need_snapshot: true,
        last_ui_probe: if probed {
            Some(now.steady_ns)
        } else {
            m.last_ui_probe
        },
        signals: Signals { ui_freeze_active: freeze, ..m.signals },
        ..m
    }
}

/// The detector once a stutter has ended.
pub open spec fn ended(m: DetectorModel) -> DetectorModel {
    DetectorModel {
        stutter_start: None,
        causes: seq![],
        culprits: seq![],
        first_touch: seq![],
        need_snapshot: false,
        ..m
    }
}

/// Some cause is pressure on the system.
pub open spec fn has_pressure(causes: Seq<Seq<char>>) -> bool {
    exists|i: int| 0 <= i < causes.len() && is_pressure_cause(#[trigger] causes[i])
}

/// A cause text is of a kind that is pressure on the system.
pub open spec fn is_pressure_cause(cause: Seq<char>) -> bool {
    match kind_of(cause) {
        Some(k) => pressure_kind(k),
        None => false,
    }
}

/// How many causes count for the severity: all but those that are known not to be pressure.
pub open spec fn weighty_count(causes: Seq<Seq<char>>) -> int
    decreases causes.len(),
{
    if causes.len() == 0 {
        0
    } else {
        weighty_count(causes.drop_last()) + match kind_of(causes.last()) {
            Some(k) => if pressure_kind(k) {
                1int
            } else {
                0
            },
            None => 1,
        }
    }
}

/// The severity by the count of weighty causes and by the duration.
pub open spec fn severity_of(count: int, duration_ms: int) -> Severity {
    if count >= 3 || duration_ms > 30_000 {
        Severity::Critical
    } else if count >= 2 || duration_ms > 10_000 {
        Severity::Major
    } else {
        Severity::Minor
    }
}

/// The kinds of causes, in their order.
pub open spec fn kinds_of(causes: Seq<Seq<char>>) -> Seq<CauseKind>
    decreases causes.len(),
{
    if causes.len() == 0 {
        seq![]
    } else {
        match kind_of(causes.last()) {
            Some(k) => kinds_of(causes.drop_last()).push(k),
            None => kinds_of(causes.drop_last()),
        }
    }
}

/// Each kind once, where it first occurs.
pub open spec fn each_once(kinds: Seq<CauseKind>) -> Seq<CauseKind>
    decreases kinds.len(),
{
    if kinds.len() == 0 {
        seq![]
    } else {
        let front = each_once(kinds.drop_last());
        if front.contains(kinds.last()) {
            front
        } else {
            front.push(kinds.last())
        }
    }
}

/// Milliseconds from the beginning of the stutter to each first sighting.
pub open spec fn touch_offsets(touches: Seq<(CauseKind, u64)>, start: u64) -> Seq<(CauseKind, i64)> {
    Seq::new(touches.len(), |i: int| (touches[i].0, (passed(start, touches[i].1) / (NS_PER_MS as int)) as i64))
}

/// The keys by which kinds are put in the order of their first sightings.
pub open spec fn touch_keys(kinds: Seq<CauseKind>, offsets: Seq<(CauseKind, i64)>) -> Seq<i128> {
    Seq::new(
        kinds.len(),
        |i: int|
            match crate::cause::touch_of(offsets, kinds[i]) {
                Some(t) => t as i128,
                None => 0,
            },
    )
}

/// The kinds of a stutter, the earliest first.
pub open spec fn kinds_by_touch(causes: Seq<Seq<char>>, offsets: Seq<(CauseKind, i64)>) -> Seq<CauseKind> {
    let kinds = each_once(kinds_of(causes));
    reordered(kinds, ascending(touch_keys(kinds, offsets)))
}

/// The moment of a Unix time in nanoseconds.
pub open spec fn moment(ns: u64) -> Timestamp {
    Timestamp { secs: (ns / NS_PER_SEC) as i64, nanos: (ns % NS_PER_SEC) as u32 }
}

/// How long a stutter lasted, in milliseconds.
pub open spec fn duration_ms(start: u64, now: Clock) -> int {
    passed(start, now.wall_ns) / (NS_PER_MS as int)
}

/// A stutter that ends now is recorded: it lasted long enough and had pressure among its causes.
pub open spec fn recorded(m: DetectorModel, start: u64, now: Clock) -> bool {
    duration_ms(start, now) >= m.config.lines.sustained_seconds * 1000 && has_pressure(m.causes)
}

/// The event of a stutter that ends now.
pub open spec fn event_of(m: DetectorModel, start: u64, sample: SampleModel, now: Clock) -> EventModel {
    let offsets = touch_offsets(m.first_touch, start);
    let kinds = kinds_by_touch(m.causes, offsets);
    EventModel {
        id: 0,
        timestamp: moment(now.wall_ns),
        duration_ms: duration_ms(start, now) as u64,
        severity: severity_of(weighty_count(m.causes), duration_ms(start, now)),
        causes: m.causes,
        cause_kinds: kinds,
        primary_cause: if kinds.len() > 0 {
            Some(kinds[0])
        } else {
            None
        },
        cause_first_touch: offsets,
        onset_ts: Some((start / NS_PER_MS) as i64),
        snapshot: sample,
        culprits: top_merged(m.culprits, 3, 3, 6),
    }
}

/// One tick: the next state, and the event of a stutter that ends with it.
pub open spec fn tick(m: DetectorModel, sample: SampleModel, f: Figures, now: Clock, frozen: bool) -> (DetectorModel, Option<EventModel>) {
    let (seen, causes) = observed(m, sample.readings, f, now);
    if causes.len() > 0 {
        (followed(seen, causes, sample.top_processes, now, frozen), None)
    } else {
        match seen.stutter_start {
            Some(start) => (
                ended(seen),
                if recorded(seen, start, now) {
                    Some(event_of(seen, start, sample, now))
                } else {
                    None
                },
            ),
            None => (seen, None),
        }
    }
}

/// Text from parts.
fn phrase4(a: &str, b: &str, c: &str, d: &str) -> (s: String)
    ensures
        s@ == a@ + b@ + c@ + d@,
{
    let mut s = String::from_str(a);
    s.append(b);
    s.append(c);
    s.append(d);
    s
}

fn phrase5(a: &str, b: &str, c: &str, d: &str, e: &str) -> (s: String)
    ensures
        s@ == a@ + b@ + c@ + d@ + e@,
{
    let mut s = phrase4(a, b, c, d);
    s.append(e);
    s
}

impl DetectionConfig {
    /// Whether something besides the paging rate shows pressure on memory or disk.
    pub fn paging_has_pressure_evidence(&self, commit_percent: Level, r: &Readings) -> (b: bool)
        ensures
            b == paging_evidence(self.lines, commit_percent, *r),
    {
        let lines = &self.lines;
        commit_percent.gt(lines.commit_threshold_percent) || r.mem_usage_percent.gt(lines.mem_threshold_percent)
            || r.mem_available_mb < lines.mem_threshold_mb || r.disk_busy_percent.gt(lines.disk_busy_threshold_percent)
            || r.disk_avg_io_ms.gt(lines.disk_io_threshold_ms)
    }
}

fn step_memory(lines: &Lines, s: MemLatch, r: &Readings, now: Clock) -> (t: MemLatch)
    ensures
        t == mem_next(*lines, s, *r, now),
{
    let mut t = s;
    let entry = r.mem_usage_percent.gt(lines.mem_threshold_percent) || r.mem_available_mb < lines.mem_threshold_mb;
    let calm = r.mem_usage_percent.le(lines.mem_exit_percent) && r.mem_available_mb >= lines.mem_available_exit_mb;
    if t.suppressed {
        if calm {
            t.suppressed = false;
        }
    } else if !t.active {
        if entry {
            t.active = true;
            t.active_since = Some(now.wall_ns);
        }
    } else if calm {
        t.active = false;
        t.active_since = None;
    } else {
        let chronic = match t.active_since {
            Some(since) => now.wall_ns >= since && now.wall_ns - since >= lines.mem_chronic_seconds as u64 * NS_PER_SEC,
            None => false,
        };
        if chronic {
            t.active = false;
            t.suppressed = true;
            t.active_since = None;
        }
    }
    let mut held = Latch { active: t.active, band_since: t.band_since };
    band_hold_step(&mut held, entry, lines.hysteresis_hold_max_secs, now.steady_ns);
    t.active = held.active;
    t.band_since = held.band_since;
    if !t.active {
        t.active_since = None;
    }
    t
}

fn step_disk(lines: &Lines, l: Latch, r: &Readings, now: Clock) -> (t: Latch)
    ensures
        t == latched(l, disk_over(*lines, *r), disk_calm(*lines, *r), lines.hysteresis_hold_max_secs, now.steady_ns),
{
    let busy = r.disk_busy_percent.gt(lines.disk_busy_threshold_percent) || r.disk_avg_io_ms.gt(
        lines.disk_io_threshold_ms,
    );
    let mut t = l;
    if busy {
        t.active = true;
    } else if lines.disk_busy_exit.gt(r.disk_busy_percent) && lines.disk_io_exit.gt(r.disk_avg_io_ms) {
        t.active = false;
    }
    band_hold_step(&mut t, busy, lines.hysteresis_hold_max_secs, now.steady_ns);
    t
}

fn step_thermal(lines: &Lines, active: bool, r: &Readings, peak: Option<Level>, f: &Figures) -> (t: bool)
    ensures
        t == thermal_next(*lines, active, *r, peak, *f),
{
    match (r.cpu_temp, r.cpu_freq_mhz) {
        (Some(temp), Some(freq)) => {
            let load = r.cpu_usage.gt(Level::At(THERMAL_LOAD_MIN_USAGE));
            let hot = temp.gt(lines.thermal_threshold_celsius);
            let dropped = match peak {
                Some(p) => p.gt(Level::At(0)) && f.thermal.drop_line.gt(freq),
                None => false,
            };
            hot && dropped && load
        },
        _ => active,
    }
}

fn step_signals(lines: &Lines, s: Signals, r: &Readings, peak: Option<Level>, f: &Figures, now: Clock) -> (t: Signals)
    ensures
        t == hard_next(*lines, s, *r, peak, *f, now),
{
    let hold = lines.hysteresis_hold_max_secs;
    let cpu = step_reading(s.cpu, r.cpu_usage, lines.cpu_threshold, lines.cpu_exit, hold, now);
    let mem_level = step_memory(lines, s.mem_level, r, now);
    let disk_busy = step_disk(lines, s.disk_busy, r, now);
    let dpc = step_reading(s.dpc, r.dpc_percent, lines.dpc_threshold_percent, lines.dpc_exit, hold, now);
    let interrupt = step_reading(
        s.interrupt,
        r.interrupt_percent,
        lines.interrupt_threshold_percent,
        lines.interrupt_exit,
        hold,
        now,
    );
    let ctx_switch = step_reading(
        s.ctx_switch,
        r.context_switches_per_sec,
        lines.context_switch_threshold_per_sec,
        lines.context_switch_exit,
        hold,
        now,
    );
    let thermal_active = step_thermal(lines, s.thermal_active, r, peak, f);
    Signals { cpu, mem_level, disk_busy, dpc, interrupt, ctx_switch, thermal_active, ..s }
}

/// The signals with thresholds after this tick, and the causes that they give.
pub fn check_hard_thresholds(
    cfg: &DetectionConfig,
    s: Signals,
    peak: Option<Level>,
    r: &Readings,
    f: &Figures,
    now: Clock,
) -> (out: (Signals, Vec<String>))
    ensures
        out.0 == hard_next(cfg.lines, s, *r, peak, *f, now),
        texts(out.1@) == hard_causes(cfg@, out.0, *r, *f),
{
    let lines = &cfg.lines;
    let t = step_signals(lines, s, r, peak, f, now);
    let mut causes: Vec<String> = Vec::new();
    proof {
        assert(texts(causes@) =~= seq![]);
    }
    if t.cpu.active {
        if r.cpu_usage.gt(lines.cpu_threshold) {
            push_text(&mut causes, phrase5("CPU usage ", f.cpu_text.as_str(), "% > ", cfg.texts.cpu_threshold.as_str(), "%"));
        } else {
            push_text(
                &mut causes,
                phrase5(
                    "CPU usage ",
                    f.cpu_text.as_str(),
                    "%（滞回保持，阈值 ",
                    cfg.texts.cpu_threshold.as_str(),
                    "%）",
                ),
            );
        }
    }
    if t.mem_level.active && r.mem_available_mb < lines.mem_threshold_mb {
        push_text(
            &mut causes,
            phrase5(
                "Available memory ",
                decimal_text(r.mem_available_mb).as_str(),
                "MB < ",
                decimal_text(lines.mem_threshold_mb).as_str(),
                "MB",
            ),
        );
    }
    if t.mem_level.active && r.mem_usage_percent.gt(lines.mem_threshold_percent) {
        push_text(
            &mut causes,
            phrase5("Memory usage ", f.mem_text.as_str(), "% > ", cfg.texts.mem_threshold_percent.as_str(), "%"),
        );
    }
    if r.page_reads_per_sec.gt(lines.page_reads_threshold) && cfg.paging_has_pressure_evidence(f.commit_percent, r) {
        push_text(
            &mut causes,
            phrase5(
                "Memory paging ",
                f.page_reads_text.as_str(),
                "/s > ",
                cfg.texts.page_reads_threshold.as_str(),
                "/s",
            ),
        );
    }
    if t.disk_busy.active {
        push_text(
            &mut causes,
            phrase5("Disk busy ", f.disk_busy_text.as_str(), "% (IO ", f.disk_io_text.as_str(), "ms)"),
        );
    }
    if t.dpc.active {
        push_text(
            &mut causes,
            phrase5("DPC time ", f.dpc_text.as_str(), "% > ", cfg.texts.dpc_threshold_percent.as_str(), "%"),
        );
    }
    if t.interrupt.active {
        push_text(
            &mut causes,
            phrase5(
                "Interrupt time ",
                f.interrupt_text.as_str(),
                "% > ",
                cfg.texts.interrupt_threshold_percent.as_str(),
                "%",
            ),
        );
    }
    if t.ctx_switch.active {
        push_text(
            &mut causes,
            phrase5(
                "Context switches ",
                f.ctx_switch_text.as_str(),
                "/s > ",
                cfg.texts.context_switch_threshold_per_sec.as_str(),
                "/s",
            ),
        );
    }
    if t.thermal_active && r.cpu_temp.is_some() {
        let mut text = phrase5(
            "Thermal throttle: CPU ",
            f.thermal.temp_text.as_str(),
            "°C, freq ",
            f.thermal.freq_text.as_str(),
            "MHz < ",
        );
        text.append(f.thermal.peak_text.as_str());
        text.append("MHz (drop ");
        text.append(decimal_signed_text(f.thermal.drop_percent as i64).as_str());
        text.append("%)");
        push_text(&mut causes, text);
    }
    (t, causes)
}

/// One step of a spike signal on a rate, and its cause where it is active.
pub fn spike_check(
    causes: &mut Vec<String>,
    name: &str,
    unit: &str,
    f: &SpikeFigures,
    threshold: Level,
    release: Level,
    min_abs: Level,
    active: &mut bool,
)
    ensures
        *final(active) == spike_next(*old(active), *f, threshold, release, min_abs),
        texts(final(causes)@) == spike_report(*final(active), *f, name@, unit@, texts(old(causes)@)),
{
    let mut over: usize = 0;
    let mut i: usize = 0;
    while i < f.rises.len()
        invariant
            i <= f.rises@.len(),
            over <= i,
            over == spike_count(*f, threshold, min_abs, i as int),
        decreases f.rises@.len() - i,
    {
        let r = f.rises[i];
        if min_abs.le(r.value) && f.baseline.gt(Level::At(ONE)) && r.value.gt(f.baseline) && r.rise.gt(threshold) {
            over += 1;
        }
        i += 1;
    }
    if over >= SPIKE_CONFIRM_MIN {
        *active = true;
    } else if f.baseline.le(Level::At(ONE)) || release.gt(f.mean_rise) {
        *active = false;
    }
    if *active {
        let mut text = phrase4(name, " spike: ", f.baseline_text.as_str(), unit);
        text.append(" → ");
        text.append(f.recent_text.as_str());
        text.append(unit);
        push_text(causes, text);
    }
}

/// The spike signals after this tick; adds the causes that they give.
pub fn check_spike(lines: &Lines, s: Signals, history: usize, f: &Figures, causes: &mut Vec<String>) -> (t: Signals)
    ensures
        t == spikes_next(*lines, s, history as int, *f),
        texts(final(causes)@) == spike_causes(t, history as int, *f, texts(old(causes)@)),
{
    if history < SPIKE_WINDOW {
        return s;
    }
    let mut cpu = s.cpu_spike_active;
    spike_check(
        causes,
        "CPU",
        "%",
        &f.cpu_spike,
        lines.spike_ratio,
        lines.spike_release,
        lines.spike_min_cpu_percent,
        &mut cpu,
    );
    let mut net = s.net_spike_active;
    spike_check(
        causes,
        "Network",
        "B/s",
        &f.net_spike,
        lines.spike_ratio,
        lines.spike_release,
        lines.spike_min_bps,
        &mut net,
    );
    let mut mem = s.mem_spike_active;
    if f.mem_drop.baseline.gt(Level::At(ONE)) {
        if f.mem_drop.fall.gt(lines.spike_ratio) {
            mem = true;
        } else if lines.spike_release.gt(f.mem_drop.fall) {
            mem = false;
        }
        if mem {
            push_text(
                causes,
                phrase5(
                    "Memory available spike: ",
                    f.mem_drop.baseline_text.as_str(),
                    "MB → ",
                    f.mem_drop.recent_text.as_str(),
                    "MB",
                ),
            );
        }
    }
    Signals { cpu_spike_active: cpu, net_spike_active: net, mem_spike_active: mem, ..s }
}

fn find_pid(v: &Vec<ProcessBrief>, pid: u32) -> (i: usize)
    ensures
        i <= v@.len(),
        i == pid_at(briefs(v@), pid, 0),
{
    let mut i: usize = 0;
    while i < v.len() && v[i].pid != pid
        invariant
            i <= v@.len(),
            pid_at(briefs(v@), pid, i as int) == pid_at(briefs(v@), pid, 0),
        decreases v@.len() - i,
    {
        i += 1;
    }
    i
}

/// Takes in one sighting of a process: its highest use is kept.
fn sight(culprits: &mut Vec<ProcessBrief>, p: &ProcessBrief)
    ensures
        briefs(final(culprits)@) == sighted(briefs(old(culprits)@), p@),
{
    let i = find_pid(culprits, p.pid);
    if i < culprits.len() {
        let ghost before = briefs(culprits@);
        let mut entry = culprits[i].copy();
        entry.cpu_usage = entry.cpu_usage.max(p.cpu_usage);
        if p.mem_used_mb > entry.mem_used_mb {
            entry.mem_used_mb = p.mem_used_mb;
        }
        let ghost updated = entry@;
        culprits.set(i, entry);
        proof {
            assert(briefs(culprits@) =~= before.update(i as int, updated));
        }
    } else {
        push_brief(culprits, p.copy());
    }
}

fn sight_all(culprits: &mut Vec<ProcessBrief>, seen: &Vec<ProcessBrief>)
    ensures
        briefs(final(culprits)@) == sighted_all(briefs(old(culprits)@), briefs(seen@)),
{
    let ghost start = briefs(culprits@);
    let mut i: usize = 0;
    proof {
        assert(briefs(seen@).take(0) =~= seq![]);
    }
    while i < seen.len()
        invariant
            i <= seen@.len(),
            briefs(culprits@) == sighted_all(start, briefs(seen@).take(i as int)),
        decreases seen@.len() - i,
    {
        proof {
            let ahead = briefs(seen@).take(i + 1);
            assert(ahead.drop_last() =~= briefs(seen@).take(i as int));
            assert(ahead.last() == seen@[i as int]@);
        }
        sight(culprits, &seen[i]);
        i += 1;
    }
    proof {
        assert(briefs(seen@).take(seen@.len() as int) =~= briefs(seen@));
    }
}

/// Notes when the kind of a cause was first seen.
fn touch(touches: &mut Vec<(CauseKind, u64)>, cause: &str, now: u64)
    ensures
        final(touches)@ == touched(old(touches)@, cause@, now),
{
    if let Some(k) = CauseKind::from_cause(cause) {
        let mut i: usize = 0;
        while i < touches.len()
            invariant
                i <= touches@.len(),
                touches@ == old(touches)@,
                kind_of(cause@) == Some(k),
                forall|j: int| 0 <= j < i ==> (#[trigger] touches@[j]).0 != k,
            decreases touches@.len() - i,
        {
            if touches[i].0 == k {
                proof {
                    assert(has_touch(touches@, k));
                }
                return;
            }
            i += 1;
        }
        proof {
            assert(!has_touch(touches@, k));
        }
        touches.push((k, now));
    }
}

fn touch_all(touches: &mut Vec<(CauseKind, u64)>, causes: &Vec<String>, now: u64)
    ensures
        final(touches)@ == touched_all(old(touches)@, texts(causes@), now),
{
    let ghost start = touches@;
    let mut i: usize = 0;
    proof {
        assert(texts(causes@).take(0) =~= seq![]);
    }
    while i < causes.len()
        invariant
            i <= causes@.len(),
            touches@ == touched_all(start, texts(causes@).take(i as int), now),
        decreases causes@.len() - i,
    {
        proof {
            let ahead = texts(causes@).take(i + 1);
            assert(ahead.drop_last() =~= texts(causes@).take(i as int));
            assert(ahead.last() == causes@[i as int]@);
        }
        touch(touches, causes[i].as_str(), now);
        i += 1;
    }
    proof {
        assert(texts(causes@).take(causes@.len() as int) =~= texts(causes@));
    }
}

fn find_key(causes: &Vec<String>, key: &str) -> (i: usize)
    ensures
        i <= causes@.len(),
        i == key_at(texts(causes@), key@, 0),
{
    let mut i: usize = 0;
    while i < causes.len() && !same_text(cause_key(causes[i].as_str()), key)
        invariant
            i <= causes@.len(),
            key_at(texts(causes@), key@, i as int) == key_at(texts(causes@), key@, 0),
        decreases causes@.len() - i,
    {
        i += 1;
    }
    i
}

/// Takes the causes of one more tick into those of the stutter.
fn join_causes(causes: &mut Vec<String>, touches: &mut Vec<(CauseKind, u64)>, new: &Vec<String>, now: u64)
    ensures
        (texts(final(causes)@), final(touches)@) == causes_joined(texts(old(causes)@), old(touches)@, texts(new@), now),
{
    let ghost start = texts(causes@);
    let ghost start_touches = touches@;
    let mut i: usize = 0;
    proof {
        assert(texts(new@).take(0) =~= seq![]);
    }
    while i < new.len()
        invariant
            i <= new@.len(),
            (texts(causes@), touches@) == causes_joined(start, start_touches, texts(new@).take(i as int), now),
        decreases new@.len() - i,
    {
        proof {
            let ahead = texts(new@).take(i + 1);
            assert(ahead.drop_last() =~= texts(new@).take(i as int));
            assert(ahead.last() == new@[i as int]@);
        }
        let c = new[i].clone();
        let at = find_key(causes, cause_key(c.as_str()));
        if at < causes.len() {
            let ghost before = texts(causes@);
            let ghost text = c@;
            causes.set(at, c);
            proof {
                assert(texts(causes@) =~= before.update(at as int, text));
            }
        } else {
            touch(touches, c.as_str(), now);
            push_text(causes, c);
        }
        i += 1;
    }
    proof {
        assert(texts(new@).take(new@.len() as int) =~= texts(new@));
    }
}

fn any_pressure(causes: &Vec<String>) -> (r: bool)
    ensures
        r == has_pressure(texts(causes@)),
{
    let mut i: usize = 0;
    while i < causes.len()
        invariant
            i <= causes@.len(),
            forall|j: int| 0 <= j < i ==> !is_pressure_cause(#[trigger] texts(causes@)[j]),
        decreases causes@.len() - i,
    {
        proof {
            assert(texts(causes@)[i as int] == causes@[i as int]@);
        }
        if let Some(k) = CauseKind::from_cause(causes[i].as_str()) {
            if k.is_pressure() {
                proof {
                    assert(is_pressure_cause(texts(causes@)[i as int]));
                }
                return true;
            }
        }
        i += 1;
    }
    false
}

/// The severity of a stutter by its causes and its duration.
///
/// Causes that are known not to be pressure do not count; a text of unknown kind does.
pub fn determine_severity(causes: &Vec<String>, duration_ms: u64) -> (s: Severity)
    ensures
        s == severity_of(weighty_count(texts(causes@)), duration_ms as int),
{
    let mut count: usize = 0;
    let mut i: usize = 0;
    proof {
        assert(texts(causes@).take(0) =~= seq![]);
    }
    while i < causes.len()
        invariant
            i <= causes@.len(),
            count <= i,
            count == weighty_count(texts(causes@).take(i as int)),
        decreases causes@.len() - i,
    {
        proof {
            let ahead = texts(causes@).take(i + 1);
            assert(ahead.drop_last() =~= texts(causes@).take(i as int));
            assert(ahead.last() == causes@[i as int]@);
        }
        let weighty = match CauseKind::from_cause(causes[i].as_str()) {
            Some(k) => k.is_pressure(),
            None => true,
        };
        if weighty {
            count += 1;
        }
        i += 1;
    }
    proof {
        assert(texts(causes@).take(causes@.len() as int) =~= texts(causes@));
    }
    if count >= 3 || duration_ms > 30_000 {
        Severity::Critical
    } else if count >= 2 || duration_ms > 10_000 {
        Severity::Major
    } else {
        Severity::Minor
    }
}

fn list_kinds(causes: &Vec<String>) -> (kinds: Vec<CauseKind>)
    ensures
        kinds@ == kinds_of(texts(causes@)),
{
    let mut kinds: Vec<CauseKind> = Vec::new();
    let mut i: usize = 0;
    proof {
        assert(texts(causes@).take(0) =~= seq![]);
    }
    while i < causes.len()
        invariant
            i <= causes@.len(),
            kinds@ == kinds_of(texts(causes@).take(i as int)),
        decreases causes@.len() - i,
    {
        proof {
            let ahead = texts(causes@).take(i + 1);
            assert(ahead.drop_last() =~= texts(causes@).take(i as int));
            assert(ahead.last() == causes@[i as int]@);
        }
        if let Some(k) = CauseKind::from_cause(causes[i].as_str()) {
            kinds.push(k);
        }
        i += 1;
    }
    proof {
        assert(texts(causes@).take(causes@.len() as int) =~= texts(causes@));
    }
    kinds
}

fn holds(kinds: &Vec<CauseKind>, k: CauseKind) -> (r: bool)
    ensures
        r == kinds@.contains(k),
{
    let mut i: usize = 0;
    while i < kinds.len()
        invariant
            i <= kinds@.len(),
            forall|j: int| 0 <= j < i ==> kinds@[j] != k,
        decreases kinds@.len() - i,
    {
        if kinds[i] == k {
            return true;
        }
        i += 1;
    }
    false
}

fn drop_repeats(kinds: &Vec<CauseKind>) -> (r: Vec<CauseKind>)
    ensures
        r@ == each_once(kinds@),
{
    let mut r: Vec<CauseKind> = Vec::new();
    let mut i: usize = 0;
    proof {
        assert(kinds@.take(0) =~= seq![]);
    }
    while i < kinds.len()
        invariant
            i <= kinds@.len(),
            r@ == each_once(kinds@.take(i as int)),
        decreases kinds@.len() - i,
    {
        proof {
            let ahead = kinds@.take(i + 1);
            assert(ahead.drop_last() =~= kinds@.take(i as int));
            assert(ahead.last() == kinds@[i as int]);
        }
        if !holds(&r, kinds[i]) {
            r.push(kinds[i]);
        }
        i += 1;
    }
    proof {
        assert(kinds@.take(kinds@.len() as int) =~= kinds@);
    }
    r
}

fn list_offsets(touches: &Vec<(CauseKind, u64)>, start: u64) -> (r: Vec<(CauseKind, i64)>)
    ensures
        r@ == touch_offsets(touches@, start),
{
    let mut r: Vec<(CauseKind, i64)> = Vec::new();
    let mut i: usize = 0;
    while i < touches.len()
        invariant
            i <= touches@.len(),
            r@ == touch_offsets(touches@, start).take(i as int),
        decreases touches@.len() - i,
    {
        let off: u64 = passed_ns(start, touches[i].1) / NS_PER_MS;
        r.push((touches[i].0, off as i64));
        i += 1;
        proof {
            assert(r@ =~= touch_offsets(touches@, start).take(i as int));
        }
    }
    proof {
        assert(r@ =~= touch_offsets(touches@, start));
    }
    r
}

fn order_kinds(causes: &Vec<String>, offsets: &Vec<(CauseKind, i64)>) -> (r: Vec<CauseKind>)
    ensures
        r@ == kinds_by_touch(texts(causes@), offsets@),
{
    let kinds = drop_repeats(&list_kinds(causes));
    let mut keys: Vec<i128> = Vec::new();
    let mut i: usize = 0;
    while i < kinds.len()
        invariant
            i <= kinds@.len(),
            keys@ == touch_keys(kinds@, offsets@).take(i as int),
        decreases kinds@.len() - i,
    {
        let key: i128 = match first_touch(offsets, kinds[i]) {
            Some(t) => t as i128,
            None => 0,
        };
        keys.push(key);
        i += 1;
        proof {
            assert(keys@ =~= touch_keys(kinds@, offsets@).take(i as int));
        }
    }
    proof {
        assert(keys@ =~= touch_keys(kinds@, offsets@));
    }
    let order = ascending_order(&keys);
    let mut r: Vec<CauseKind> = Vec::new();
    let mut j: usize = 0;
    while j < order.len()
        invariant
            j <= order@.len(),
            order@.len() == kinds@.len(),
            forall|i: int| 0 <= i < order@.len() ==> #[trigger] order@[i] < kinds@.len(),
            r@ == reordered(kinds@, positions(order@)).take(j as int),
        decreases order@.len() - j,
    {
        r.push(kinds[order[j]]);
        j += 1;
        proof {
            assert(r@ =~= reordered(kinds@, positions(order@)).take(j as int));
        }
    }
    proof {
        assert(r@ =~= reordered(kinds@, positions(order@)));
    }
    r
}

/// The detector.
#[derive(Debug)]
pub struct Detector {
    config: DetectionConfig,
    history: Vec<HistoryPoint>,
    stutter_start: Option<u64>,
    current_causes: Vec<String>,
    signals: Signals,
    last_ui_probe: Option<u64>,
    last_tick: Option<u64>,
    current_culprits: Vec<ProcessBrief>,
    current_cause_first_touch: Vec<(CauseKind, u64)>,
    need_process_snapshot: bool,
    freq_peak: Option<Level>,
}

impl View for Detector {
    type V = DetectorModel;

    closed spec fn view(&self) -> DetectorModel {
        DetectorModel {
            config: self.config@,
            history: self.history@,
            stutter_start: self.stutter_start,
            causes: texts(self.current_causes@),
            signals: self.signals,
            last_ui_probe: self.last_ui_probe,
            last_tick: self.last_tick,
            culprits: briefs(self.current_culprits@),
            first_touch: self.current_cause_first_touch@,
            need_snapshot: self.need_process_snapshot,
            freq_peak: self.freq_peak,
        }
    }
}

impl Detector {
    /// A detector that has seen nothing.
    pub fn new(config: &DetectionConfig) -> (d: Detector)
        ensures
            d@ == fresh(config@),
    {
        let d = Detector {
            config: config.copy(),
            history: Vec::new(),
            stutter_start: None,
            current_causes: Vec::new(),
            signals: quiet_signals(),
            last_ui_probe: None,
            last_tick: None,
            current_culprits: Vec::new(),
            current_cause_first_touch: Vec::new(),
            need_process_snapshot: false,
            freq_peak: None,
        };
        proof {
            assert(d@.history =~= seq![]);
            assert(d@.causes =~= seq![]);
            assert(d@.culprits =~= seq![]);
            assert(d@.first_touch =~= seq![]);
        }
        d
    }

    /// Whether the next sample should list the top processes.
    pub fn needs_process_snapshot(&self) -> (r: bool)
        ensures
            r == self@.need_snapshot,
    {
        self.need_process_snapshot
    }

    /// When the stutter that is followed began, in Unix nanoseconds.
    pub fn stutter_start(&self) -> (r: Option<u64>)
        ensures
            r == self@.stutter_start,
    {
        self.stutter_start
    }

    /// The causes of the stutter that is followed.
    pub fn current_causes(&self) -> (r: &Vec<String>)
        ensures
            texts(r@) == self@.causes,
    {
        &self.current_causes
    }

    /// The states of the signals.
    pub fn signals(&self) -> (r: Signals)
        ensures
            r == self@.signals,
    {
        self.signals
    }

    /// How many samples of the past are kept.
    pub fn history_len(&self) -> (n: usize)
        ensures
            n == self@.history.len(),
    {
        self.history.len()
    }

    /// The peak clock that is remembered.
    pub fn freq_peak(&self) -> (r: Option<Level>)
        ensures
            r == self@.freq_peak,
    {
        self.freq_peak
    }

    /// The settings.
    pub fn config(&self) -> (r: &DetectionConfig)
        ensures
            r@ == self@.config,
    {
        &self.config
    }

    /// The peak clock once this reading has been taken in.
    pub fn peak_after(&self, freq: Option<Level>, faded: Level) -> (r: Option<Level>)
        ensures
            r == peak_next(self@.freq_peak, freq, faded),
    {
        match freq {
            Some(f) => match self.freq_peak {
                Some(_) => Some(faded.max(f)),
                None => Some(f),
            },
            None => self.freq_peak,
        }
    }

    fn gap_before(&self, now: Clock) -> (r: bool)
        ensures
            r == interrupted(self@, now),
    {
        match self.last_tick {
            Some(last) => now.wall_ns > last && now.wall_ns - last > self.config.lines.max_tick_gap_secs as u64 * NS_PER_SEC,
            None => false,
        }
    }

    /// The samples that the spike check of this tick looks at, the oldest first: the baseline,
    /// then the recent ones. None while there are too few.
    pub fn window(&self, r: &Readings, now: Clock) -> (w: Option<Vec<HistoryPoint>>)
        ensures
            ({
                let history = remembered(
                    if interrupted(self@, now) {
                        seq![]
                    } else {
                        self@.history
                    },
                    point_of(*r),
                );
                &&& match w {
                    Some(points) => history.len() >= SPIKE_WINDOW && points@ == history.skip(
                        history.len() - SPIKE_WINDOW,
                    ),
                    None => history.len() < SPIKE_WINDOW,
                }
                &&& match w {
                    Some(points) => window_of(history) == Some(points@),
                    None => window_of(history) is None,
                }
            }),
    {
        let known: usize = if self.gap_before(now) {
            0
        } else {
            self.history.len()
        };
        if known < SPIKE_WINDOW - 1 {
            return None;
        }
        let mut points: Vec<HistoryPoint> = Vec::new();
        let from: usize = known - (SPIKE_WINDOW - 1);
        let mut i: usize = from;
        while i < known
            invariant
                from <= i <= known,
                known <= self.history@.len(),
                points@ == self.history@.subrange(from as int, i as int),
            decreases known - i,
        {
            points.push(self.history[i]);
            i += 1;
            proof {
                assert(points@ =~= self.history@.subrange(from as int, i as int));
            }
        }
        points.push(
            HistoryPoint {
                cpu_usage: r.cpu_usage,
                net_sent_bps: r.net_sent_bps,
                net_recv_bps: r.net_recv_bps,
                mem_available_mb: r.mem_available_mb,
            },
        );
        proof {
            let history = remembered(self@.history, point_of(*r));
            assert(points@ =~= history.skip(history.len() - SPIKE_WINDOW));
        }
        Some(points)
    }

    /// Takes the sample in and steps the signals; gives the causes of this tick.
    fn observe(&mut self, r: &Readings, f: &Figures, now: Clock) -> (causes: Vec<String>)
        ensures
            (final(self)@, texts(causes@)) == observed(old(self)@, *r, *f, now),
    {
        if self.gap_before(now) {
            self.reset_after_gap();
        }
        self.last_tick = Some(now.wall_ns);
        let ghost before = self.history@;
        self.history.push(
            HistoryPoint {
                cpu_usage: r.cpu_usage,
                net_sent_bps: r.net_sent_bps,
                net_recv_bps: r.net_recv_bps,
                mem_available_mb: r.mem_available_mb,
            },
        );
        if self.history.len() > HISTORY_MAX {
            self.history.remove(0);
        }
        proof {
            assert(self.history@ =~= remembered(before, point_of(*r)));
        }
        self.freq_peak = self.peak_after(r.cpu_freq_mhz, f.thermal.faded_peak);
        let hard = check_hard_thresholds(&self.config, self.signals, self.freq_peak, r, f, now);
        let mut causes = hard.1;
        self.signals = check_spike(&self.config.lines, hard.0, self.history.len(), f, &mut causes);
        causes
    }

    /// Forgets what spans ticks: samples before and after an interruption cannot be compared.
    fn reset_after_gap(&mut self)
        ensures
            final(self)@ == forgotten(old(self)@),
    {
        self.stutter_start = None;
        self.current_causes.clear();
        self.current_culprits.clear();
        self.current_cause_first_touch.clear();
        self.need_process_snapshot = false;
        self.signals = quiet_signals();
        self.history.clear();
        proof {
            assert(self@.history =~= seq![]);
            assert(self@.causes =~= seq![]);
            assert(self@.culprits =~= seq![]);
            assert(self@.first_touch =~= seq![]);
        }
    }

    /// Whether this tick asks the foreground window for an answer.
    pub fn probe_due(&self, sample: &Sample, f: &Figures, now: Clock) -> (due: bool)
        ensures
            due == probes(self@, sample.readings, *f, now),
    {
        let gap = self.gap_before(now);
        let s = if gap {
            quiet_signals()
        } else {
            self.signals
        };
        let known: usize = if gap {
            0
        } else {
            self.history.len()
        };
        let history: usize = if known < HISTORY_MAX {
            known + 1
        } else {
            known
        };
        let r = &sample.readings;
        let peak = self.peak_after(r.cpu_freq_mhz, f.thermal.faded_peak);
        let hard = check_hard_thresholds(&self.config, s, peak, r, f, now);
        let mut causes = hard.1;
        check_spike(&self.config.lines, hard.0, history, f, &mut causes);
        proof {
            let (seen, wanted) = observed(self@, *r, *f, now);
            assert(seen.history.len() == history);
            assert(texts(causes@) == wanted);
            assert(causes@.len() == texts(causes@).len());
        }
        causes.len() > 0 && self.probe_open(now)
    }

    fn probe_open(&self, now: Clock) -> (open: bool)
        ensures
            open == probe_allowed(self@.last_ui_probe, now),
    {
        match self.last_ui_probe {
            Some(t) => passed_ns(t, now.steady_ns) >= UI_PROBE_INTERVAL_NS,
            None => true,
        }
    }

    /// Begins or continues a stutter with the causes of this tick.
    fn follow(&mut self, causes: Vec<String>, seen: &Vec<ProcessBrief>, now: Clock, frozen: bool)
        ensures
            final(self)@ == followed(old(self)@, texts(causes@), briefs(seen@), now, frozen),
    {
        let mut causes = causes;
        if self.probe_open(now) {
            self.last_ui_probe = Some(now.steady_ns);
            self.signals = Signals { ui_freeze_active: frozen, ..self.signals };
        }
        if self.signals.ui_freeze_active {
            let mut text = String::from_str("UI frozen (前台窗口无响应 ");
            text.append(decimal_text(self.config.lines.ui_freeze_timeout_ms as u64).as_str());
            text.append("ms)");
            push_text(&mut causes, text);
        }
        self.need_process_snapshot = true;
        sight_all(&mut self.current_culprits, seen);
        if self.stutter_start.is_none() {
            self.stutter_start = Some(now.wall_ns);
            touch_all(&mut self.current_cause_first_touch, &causes, now.wall_ns);
            self.current_causes = causes;
        } else {
            join_causes(&mut self.current_causes, &mut self.current_cause_first_touch, &causes, now.wall_ns);
        }
    }

    /// Forgets the stutter that was followed.
    fn finish(&mut self)
        ensures
            final(self)@ == ended(old(self)@),
    {
        self.stutter_start = None;
        self.current_causes.clear();
        self.current_culprits.clear();
        self.current_cause_first_touch.clear();
        self.need_process_snapshot = false;
        proof {
            assert(self@.causes =~= seq![]);
            assert(self@.culprits =~= seq![]);
            assert(self@.first_touch =~= seq![]);
        }
    }

    /// The event of the stutter that began at `start` and ends now.
    fn event(&self, start: u64, sample: &Sample, now: Clock) -> (e: StutterEvent)
        ensures
            e@ == event_of(self@, start, sample@, now),
    {
        let duration: u64 = passed_ns(start, now.wall_ns) / NS_PER_MS;
        let culprits = ProcessBrief::merge_top(copy_briefs(&self.current_culprits), 3, 3, 6);
        let offsets = list_offsets(&self.current_cause_first_touch, start);
        let kinds = order_kinds(&self.current_causes, &offsets);
        let primary_cause = if kinds.len() > 0 {
            Some(kinds[0])
        } else {
            None
        };
        StutterEvent {
            id: 0,
            timestamp: Timestamp {
                secs: (now.wall_ns / NS_PER_SEC) as i64,
                nanos: (now.wall_ns % NS_PER_SEC) as u32,
            },
            duration_ms: duration,
            severity: determine_severity(&self.current_causes, duration),
            causes: copy_texts(&self.current_causes),
            cause_kinds: kinds,
            primary_cause,
            cause_first_touch: offsets,
            onset_ts: Some((start / NS_PER_MS) as i64),
            snapshot: sample.copy(),
            culprits,
        }
    }

    /// One tick: takes a sample in and gives the stutter that ends with it, if one does.
    ///
    /// `frozen` is the answer of the foreground window; it counts where [`Detector::probe_due`]
    /// holds before the call, and the former answer stands otherwise.
    pub fn analyze(&mut self, sample: &Sample, f: &Figures, now: Clock, frozen: bool) -> (event: Option<StutterEvent>)
        ensures
            ({
                let (next, e) = tick(old(self)@, sample@, *f, now, frozen);
                &&& final(self)@ == next
                &&& match event {
                    Some(x) => e == Some(x@) && x@.cause_kinds.no_duplicates(),
                    None => e is None,
                }
            }),
    {
        proof {
            if tick(self@, sample@, *f, now, frozen).1 is Some {
                crate::detector_laws::lemma_event_kinds(self@, sample@, *f, now, frozen);
            }
        }
        let causes = self.observe(&sample.readings, f, now);
        proof {
            assert(causes@.len() == texts(causes@).len());
        }
        if causes.len() > 0 {
            self.follow(causes, &sample.top_processes, now, frozen);
            return None;
        }
        if let Some(start) = self.stutter_start {
            let duration: u64 = passed_ns(start, now.wall_ns) / NS_PER_MS;
            let sustained = duration >= self.config.lines.sustained_seconds as u64 * 1000;
            let event = if sustained && any_pressure(&self.current_causes) {
                Some(self.event(start, sample, now))
            } else {
                None
            };
            self.finish();
            return event;
        }
        None
    }
}

} // verus!
