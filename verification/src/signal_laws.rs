//! What the signals and causes of a tick stand for, reading by reading.

use crate::config::{DetectionModel, Lines};
use crate::detector::{
    cpu_report, forgotten, hard_causes, hard_next, interrupted, mem_report, observed, peak_next, spike_causes,
    fresh, recent_from, spike_count, spike_next, spike_value, spikes_next, tick, traffic, window_of, Clock,
    DetectorModel, Figures, HistoryPoint, Latch, MemLatch, Rise, Signals, SpikeFigures,
};
use crate::level::{above, at_most, Level};
use crate::text::{decimal, decimal_signed};
use crate::types::{Readings, SampleModel};
use vstd::prelude::*;

verus! {

/// The last tick is no longer ago than the settings allow, so that what it left still holds.
pub open spec fn goes_on(m: DetectorModel, now: Clock) -> bool {
    match m.last_tick {
        Some(last) => now.wall_ns <= last + m.config.lines.max_tick_gap_secs * 1_000_000_000,
        None => true,
    }
}

/// How long a signal has been held by hysteresis alone, in nanoseconds.
pub open spec fn held_for(l: Latch, now: u64) -> int {
    match l.band_since {
        Some(t) => if now >= t {
            now - t
        } else {
            0
        },
        None => 0,
    }
}

/// How a signal goes from one tick to the next: on over its line, off once it is calm, as it was in
/// between, but not for longer than it may be held.
pub open spec fn follows(before: Latch, after: Latch, over: bool, calm: bool, hold_secs: u32, now: u64) -> bool {
    let longest = hold_secs * 1_000_000_000;
    &&& over ==> after.active && after.band_since is None
    &&& !over && calm ==> !after.active
    &&& !over && !before.active ==> !after.active
    &&& !over && !calm && before.active && held_for(before, now) < longest ==> after.active && after.band_since == Some(
        match before.band_since {
            Some(t) => t,
            None => now,
        },
    )
    &&& !over && held_for(before, now) >= longest ==> !after.active
    &&& !after.active ==> after.band_since is None
}

/// The signals of CPU, disk, deferred calls, interrupts and context switches start above their
/// thresholds and end below their exit lines. The disk is busy by either of its readings and calm only
/// by both.
pub proof fn lemma_signals_follow_readings(m: DetectorModel, sample: SampleModel, f: Figures, now: Clock, frozen: bool)
    requires
        goes_on(m, now),
    ensures
        ({
            let lines = m.config.lines;
            let r = sample.readings;
            let a = m.signals;
            let b = tick(m, sample, f, now, frozen).0.signals;
            let hold = lines.hysteresis_hold_max_secs;
            let t = now.steady_ns;
            &&& follows(
                a.cpu,
                b.cpu,
                above(r.cpu_usage, lines.cpu_threshold),
                above(lines.cpu_exit, r.cpu_usage),
                hold,
                t,
            )
            &&& follows(
                a.disk_busy,
                b.disk_busy,
                above(r.disk_busy_percent, lines.disk_busy_threshold_percent) || above(
                    r.disk_avg_io_ms,
                    lines.disk_io_threshold_ms,
                ),
                above(lines.disk_busy_exit, r.disk_busy_percent) && above(lines.disk_io_exit, r.disk_avg_io_ms),
                hold,
                t,
            )
            &&& follows(
                a.dpc,
                b.dpc,
                above(r.dpc_percent, lines.dpc_threshold_percent),
                above(lines.dpc_exit, r.dpc_percent),
                hold,
                t,
            )
            &&& follows(
                a.interrupt,
                b.interrupt,
                above(r.interrupt_percent, lines.interrupt_threshold_percent),
                above(lines.interrupt_exit, r.interrupt_percent),
                hold,
                t,
            )
            &&& follows(
                a.ctx_switch,
                b.ctx_switch,
                above(r.context_switches_per_sec, lines.context_switch_threshold_per_sec),
                above(lines.context_switch_exit, r.context_switches_per_sec),
                hold,
                t,
            )
        }),
{
}

/// An active disk signal that has not been held too long stays active while either reading has not
/// come below its exit line, and the tick reports it.
pub proof fn lemma_disk_stays_busy(m: DetectorModel, sample: SampleModel, f: Figures, now: Clock, frozen: bool)
    requires
        goes_on(m, now),
        m.signals.disk_busy.active,
        held_for(m.signals.disk_busy, now.steady_ns) < m.config.lines.hysteresis_hold_max_secs * 1_000_000_000,
        !above(m.config.lines.disk_busy_exit, sample.readings.disk_busy_percent) || !above(
            m.config.lines.disk_io_exit,
            sample.readings.disk_avg_io_ms,
        ),
    ensures
        tick(m, sample, f, now, frozen).0.signals.disk_busy.active,
        tick(m, sample, f, now, frozen).1 is None,
        observed(m, sample.readings, f, now).1.contains(
            "Disk busy "@ + f.disk_busy_text@ + "% (IO "@ + f.disk_io_text@ + "ms)"@,
        ),
{
    lemma_tick_causes(m, sample.readings, f, now);
    let c = observed(m, sample.readings, f, now).1;
    let b = observed(m, sample.readings, f, now).0.signals;
    let text = "Disk busy "@ + f.disk_busy_text@ + "% (IO "@ + f.disk_io_text@ + "ms)"@;
    let front = load_causes(m, b, sample.readings, f);
    assert(b.disk_busy.active);
    assert(c[front.len() as int] == text);
}

/// A text where a condition holds, and nothing where it does not.
pub open spec fn said(condition: bool, text: Seq<char>) -> Seq<Seq<char>> {
    if condition {
        seq![text]
    } else {
        seq![]
    }
}

/// What a tick says of CPU and memory: the CPU signal with the reading and its line, the water mark of
/// memory by the readings that are over their lines, and paging under pressure.
pub open spec fn load_causes(m: DetectorModel, s: Signals, r: Readings, f: Figures) -> Seq<Seq<char>> {
    let lines = m.config.lines;
    let t = m.config.texts;
    let high = above(r.cpu_usage, lines.cpu_threshold);
    let low = r.mem_available_mb < lines.mem_threshold_mb;
    let full = above(r.mem_usage_percent, lines.mem_threshold_percent);
    let pressed = above(f.commit_percent, lines.commit_threshold_percent) || full || low || above(
        r.disk_busy_percent,
        lines.disk_busy_threshold_percent,
    ) || above(r.disk_avg_io_ms, lines.disk_io_threshold_ms);
    said(s.cpu.active && high, "CPU usage "@ + f.cpu_text@ + "% > "@ + t.cpu_threshold + "%"@) + said(
        s.cpu.active && !high,
        "CPU usage "@ + f.cpu_text@ + "%（滞回保持，阈值 "@ + t.cpu_threshold + "%）"@,
    ) + said(
        s.mem_level.active && low,
        "Available memory "@ + decimal(r.mem_available_mb as nat) + "MB < "@ + decimal(lines.mem_threshold_mb as nat) + "MB"@,
    ) + said(
        s.mem_level.active && full,
        "Memory usage "@ + f.mem_text@ + "% > "@ + t.mem_threshold_percent + "%"@,
    ) + said(
        above(r.page_reads_per_sec, lines.page_reads_threshold) && pressed,
        "Memory paging "@ + f.page_reads_text@ + "/s > "@ + t.page_reads_threshold + "/s"@,
    )
}

/// What a tick says of disk, deferred calls, interrupts, context switches and throttling.
pub open spec fn system_causes(m: DetectorModel, s: Signals, r: Readings, f: Figures) -> Seq<Seq<char>> {
    let t = m.config.texts;
    said(s.disk_busy.active, "Disk busy "@ + f.disk_busy_text@ + "% (IO "@ + f.disk_io_text@ + "ms)"@) + said(
        s.dpc.active,
        "DPC time "@ + f.dpc_text@ + "% > "@ + t.dpc_threshold_percent + "%"@,
    ) + said(
        s.interrupt.active,
        "Interrupt time "@ + f.interrupt_text@ + "% > "@ + t.interrupt_threshold_percent + "%"@,
    ) + said(
        s.ctx_switch.active,
        "Context switches "@ + f.ctx_switch_text@ + "/s > "@ + t.context_switch_threshold_per_sec + "/s"@,
    ) + said(
        s.thermal_active && r.cpu_temp is Some,
        "Thermal throttle: CPU "@ + f.thermal.temp_text@ + "°C, freq "@ + f.thermal.freq_text@ + "MHz < "@
            + f.thermal.peak_text@ + "MHz (drop "@ + decimal_signed(f.thermal.drop_percent as int) + "%)"@,
    )
}

/// What a tick says of sudden changes over the last seventy samples.
pub open spec fn change_causes(s: Signals, samples: int, f: Figures) -> Seq<Seq<char>> {
    let known = samples >= 70;
    said(
        known && s.cpu_spike_active,
        "CPU spike: "@ + f.cpu_spike.baseline_text@ + "% → "@ + f.cpu_spike.recent_text@ + "%"@,
    ) + said(
        known && s.net_spike_active,
        "Network spike: "@ + f.net_spike.baseline_text@ + "B/s → "@ + f.net_spike.recent_text@ + "B/s"@,
    ) + said(
        known && s.mem_spike_active && above(f.mem_drop.baseline, Level::At(0x3ff0_0000_0000_0000)),
        "Memory available spike: "@ + f.mem_drop.baseline_text@ + "MB → "@ + f.mem_drop.recent_text@ + "MB"@,
    )
}

/// The causes of a tick are those of the signals that are active after it, and no others.
pub proof fn lemma_tick_causes(m: DetectorModel, r: Readings, f: Figures, now: Clock)
    ensures
        ({
            let (seen, causes) = observed(m, r, f, now);
            let s = seen.signals;
            causes == load_causes(m, s, r, f) + system_causes(m, s, r, f) + change_causes(
                s,
                seen.history.len() as int,
                f,
            )
        }),
{
    let seen = observed(m, r, f, now).0;
    let s = seen.signals;
    let hard = hard_signals(m, r, f, now);
    let n = seen.history.len() as int;
    lemma_load_causes(m, s, r, f);
    lemma_system_causes(m, s, r, f);
    lemma_same_reports(m, hard, s, r, f);
    lemma_change_causes(s, n, f, hard_causes(m.config, hard, r, f));
}

/// The signals with thresholds after a tick, before sudden changes are looked at.
spec fn hard_signals(m: DetectorModel, r: Readings, f: Figures, now: Clock) -> Signals {
    let m1 = if interrupted(m, now) {
        forgotten(m)
    } else {
        m
    };
    hard_next(m.config.lines, m1.signals, r, peak_next(m1.freq_peak, r.cpu_freq_mhz, f.thermal.faded_peak), f, now)
}

/// The causes by threshold do not depend on the signals of sudden changes.
proof fn lemma_same_reports(m: DetectorModel, a: Signals, b: Signals, r: Readings, f: Figures)
    requires
        b == (Signals {
            cpu_spike_active: b.cpu_spike_active,
            net_spike_active: b.net_spike_active,
            mem_spike_active: b.mem_spike_active,
            ..a
        }),
    ensures
        hard_causes(m.config, a, r, f) == hard_causes(m.config, b, r, f),
{
}

proof fn lemma_change_causes(s: Signals, n: int, f: Figures, causes: Seq<Seq<char>>)
    ensures
        spike_causes(s, n, f, causes) == causes + change_causes(s, n, f),
{
    reveal_strlit("CPU");
    reveal_strlit(" spike: ");
    reveal_strlit("CPU spike: ");
    reveal_strlit("Network");
    reveal_strlit("Network spike: ");
    reveal_strlit("%");
    reveal_strlit(" → ");
    reveal_strlit("% → ");
    reveal_strlit("B/s");
    reveal_strlit("B/s → ");
    lemma_joined("CPU"@, " spike: "@, f.cpu_spike.baseline_text@, "%"@, " → "@, f.cpu_spike.recent_text@, "%"@);
    lemma_joined("Network"@, " spike: "@, f.net_spike.baseline_text@, "B/s"@, " → "@, f.net_spike.recent_text@, "B/s"@);
    assert("CPU"@ + " spike: "@ =~= "CPU spike: "@);
    assert("%"@ + " → "@ =~= "% → "@);
    assert("Network"@ + " spike: "@ =~= "Network spike: "@);
    assert("B/s"@ + " → "@ =~= "B/s → "@);
    assert(spike_causes(s, n, f, causes) =~= causes + change_causes(s, n, f));
}

proof fn lemma_joined(
    a: Seq<char>,
    b: Seq<char>,
    c: Seq<char>,
    d: Seq<char>,
    e: Seq<char>,
    g: Seq<char>,
    h: Seq<char>,
)
    ensures
        a + b + c + d + e + g + h == (a + b) + c + (d + e) + g + h,
{
    assert(a + b + c + d + e + g + h =~= (a + b) + c + (d + e) + g + h);
}

proof fn lemma_load_causes(m: DetectorModel, s: Signals, r: Readings, f: Figures)
    ensures
        mem_report(m.config, s, r, f, cpu_report(m.config, s, r, f, seq![]))
            == load_causes(m, s, r, f),
{
    assert(mem_report(m.config, s, r, f, cpu_report(m.config, s, r, f, seq![]))
        =~= load_causes(m, s, r, f));
}

proof fn lemma_system_causes(m: DetectorModel, s: Signals, r: Readings, f: Figures)
    ensures
        hard_causes(m.config, s, r, f) == mem_report(
            m.config,
            s,
            r,
            f,
            cpu_report(m.config, s, r, f, seq![]),
        ) + system_causes(m, s, r, f),
{
    let t = m.config.texts;
    let front = mem_report(m.config, s, r, f, cpu_report(m.config, s, r, f, seq![]));
    let disk = "Disk busy "@ + f.disk_busy_text@ + "% (IO "@ + f.disk_io_text@ + "ms)"@;
    let dpc = "DPC time "@ + f.dpc_text@ + "% > "@ + t.dpc_threshold_percent + "%"@;
    let interrupt = "Interrupt time "@ + f.interrupt_text@ + "% > "@ + t.interrupt_threshold_percent + "%"@;
    let switches = "Context switches "@ + f.ctx_switch_text@ + "/s > "@ + t.context_switch_threshold_per_sec + "/s"@;
    let thermal = "Thermal throttle: CPU "@ + f.thermal.temp_text@ + "°C, freq "@ + f.thermal.freq_text@ + "MHz < "@
        + f.thermal.peak_text@ + "MHz (drop "@ + decimal_signed(f.thermal.drop_percent as int) + "%)"@;
    let c1 = front + said(s.disk_busy.active, disk);
    let c2 = c1 + said(s.dpc.active, dpc);
    let c3 = c2 + said(s.interrupt.active, interrupt);
    let c4 = c3 + said(s.ctx_switch.active, switches);
    lemma_said(front, s.disk_busy.active, disk);
    lemma_said(c1, s.dpc.active, dpc);
    lemma_said(c2, s.interrupt.active, interrupt);
    lemma_said(c3, s.ctx_switch.active, switches);
    lemma_said(c4, s.thermal_active && r.cpu_temp is Some, thermal);
    lemma_in_front(
        front,
        said(s.disk_busy.active, disk),
        said(s.dpc.active, dpc),
        said(s.interrupt.active, interrupt),
        said(s.ctx_switch.active, switches),
        said(s.thermal_active && r.cpu_temp is Some, thermal),
    );
    assert(hard_causes(m.config, s, r, f) == c4 + said(s.thermal_active && r.cpu_temp is Some, thermal));
}

proof fn lemma_said(front: Seq<Seq<char>>, condition: bool, text: Seq<char>)
    ensures
        front + said(condition, text) == (if condition {
            front.push(text)
        } else {
            front
        }),
{
    assert(front + said(condition, text) =~= if condition {
        front.push(text)
    } else {
        front
    });
}

proof fn lemma_in_front(
    front: Seq<Seq<char>>,
    a: Seq<Seq<char>>,
    b: Seq<Seq<char>>,
    c: Seq<Seq<char>>,
    d: Seq<Seq<char>>,
    e: Seq<Seq<char>>,
)
    ensures
        front + a + b + c + d + e == front + (a + b + c + d + e),
{
    assert(front + a + b + c + d + e =~= front + (a + b + c + d + e));
}

/// The water mark of memory rises where either reading is over its line, and falls only where both are
/// back behind their exit lines. One that lasted as long as a steady state is silent until then. One that
/// hysteresis alone has held too long falls too.
pub proof fn lemma_water_mark_follows_memory(m: DetectorModel, sample: SampleModel, f: Figures, now: Clock, frozen: bool)
    requires
        goes_on(m, now),
    ensures
        ({
            let lines = m.config.lines;
            let r = sample.readings;
            let a = m.signals.mem_level;
            let b = tick(m, sample, f, now, frozen).0.signals.mem_level;
            let entry = above(r.mem_usage_percent, lines.mem_threshold_percent) || r.mem_available_mb
                < lines.mem_threshold_mb;
            let calm = at_most(r.mem_usage_percent, lines.mem_exit_percent) && r.mem_available_mb
                >= lines.mem_available_exit_mb;
            let chronic = a.active_since is Some && now.wall_ns >= a.active_since->0 + lines.mem_chronic_seconds
                * 1_000_000_000;
            let held = held_for(Latch { active: a.active, band_since: a.band_since }, now.steady_ns);
            let longest = lines.hysteresis_hold_max_secs * 1_000_000_000;
            &&& !a.suppressed && !a.active && entry ==> b.active && b.active_since == Some(now.wall_ns) && !b.suppressed
            &&& !a.suppressed && !a.active && !entry ==> !b.active && !b.suppressed
            &&& !a.suppressed && a.active && calm ==> !b.active && !b.suppressed
            &&& !a.suppressed && a.active && !calm && chronic ==> !b.active && b.suppressed
            &&& !a.suppressed && a.active && !calm && !chronic && entry ==> b.active && !b.suppressed && b.active_since
                == a.active_since && b.band_since is None
            &&& !a.suppressed && a.active && !calm && !chronic && !entry ==> !b.suppressed && (b.active <==> held < longest)
            &&& a.suppressed ==> b.suppressed == !calm
            &&& a.suppressed && !a.active ==> !b.active
            &&& !b.active ==> b.active_since is None && b.band_since is None
        }),
{
}

/// Throttling is reported where the CPU is hot, its clock lies under the line below the peak, and its use
/// is over half, all by the readings of this tick; where temperature or clock was not read, the signal
/// stays. The peak is the largest of the reading and the faded peak.
pub proof fn lemma_throttling_follows_readings(m: DetectorModel, sample: SampleModel, f: Figures, now: Clock, frozen: bool)
    requires
        goes_on(m, now),
    ensures
        ({
            let lines = m.config.lines;
            let r = sample.readings;
            let next = tick(m, sample, f, now, frozen).0;
            &&& r.cpu_temp is Some && r.cpu_freq_mhz is Some ==> (next.signals.thermal_active <==> above(
                r.cpu_temp->0,
                lines.thermal_threshold_celsius,
            ) && above(f.thermal.drop_line, r.cpu_freq_mhz->0) && above(
                r.cpu_usage,
                Level::At(0x4049_0000_0000_0000),
            ) && above(next.freq_peak->0, Level::At(0)))
            &&& r.cpu_temp is None || r.cpu_freq_mhz is None ==> next.signals.thermal_active == m.signals.thermal_active
            &&& r.cpu_freq_mhz is None ==> next.freq_peak == m.freq_peak
            &&& r.cpu_freq_mhz is Some ==> next.freq_peak is Some && !above(r.cpu_freq_mhz->0, next.freq_peak->0)
            &&& r.cpu_freq_mhz is Some && m.freq_peak is None ==> next.freq_peak == r.cpu_freq_mhz
            &&& r.cpu_freq_mhz is Some && m.freq_peak is Some ==> !above(f.thermal.faded_peak, next.freq_peak->0) && (
            next.freq_peak == r.cpu_freq_mhz || next.freq_peak == Some(f.thermal.faded_peak))
        }),
{
}

/// A recent value stands out: it is large enough in itself, its baseline is over one, and it exceeds the
/// baseline by more than the ratio.
pub open spec fn stands_out(f: SpikeFigures, r: Rise, ratio: Level, floor: Level) -> bool {
    at_most(floor, r.value) && above(f.baseline, Level::At(0x3ff0_0000_0000_0000)) && above(r.value, f.baseline)
        && above(r.rise, ratio)
}

/// How a spike signal steps: on where six recent values stand out, otherwise off where the baseline is
/// not over one or the mean has come down below the release line, and as it was in between.
pub open spec fn spike_steps(before: bool, after: bool, f: SpikeFigures, ratio: Level, release: Level, floor: Level) -> bool {
    let six = exists|at: Seq<int>| stand_out_at(f, ratio, floor, at, 6);
    let down = at_most(f.baseline, Level::At(0x3ff0_0000_0000_0000)) || above(release, f.mean_rise);
    &&& six ==> after
    &&& !six && down ==> !after
    &&& !six && !down ==> after == before
}

/// The values at `n` rising positions stand out.
pub open spec fn stand_out_at(f: SpikeFigures, ratio: Level, floor: Level, at: Seq<int>, n: int) -> bool {
    &&& at.len() == n
    &&& forall|i: int| 0 <= i < n ==> 0 <= #[trigger] at[i] < f.rises@.len() && stands_out(f, f.rises@[at[i]], ratio, floor)
    &&& forall|i: int, j: int| 0 <= i < j < n ==> at[i] < at[j]
}

proof fn lemma_count_finds(f: SpikeFigures, ratio: Level, floor: Level, n: int) -> (at: Seq<int>)
    requires
        0 <= n <= f.rises@.len(),
    ensures
        stand_out_at(f, ratio, floor, at, spike_count(f, ratio, floor, n)),
        forall|i: int| 0 <= i < at.len() ==> at[i] < n,
    decreases n,
{
    if n <= 0 {
        seq![]
    } else {
        let before = lemma_count_finds(f, ratio, floor, n - 1);
        if spike_value(f, f.rises@[n - 1], ratio, floor) {
            before.push(n - 1)
        } else {
            before
        }
    }
}

proof fn lemma_finds_count(f: SpikeFigures, ratio: Level, floor: Level, at: Seq<int>, n: int)
    requires
        0 <= n <= f.rises@.len(),
        stand_out_at(f, ratio, floor, at, at.len() as int),
        forall|i: int| 0 <= i < at.len() ==> at[i] < n,
    ensures
        spike_count(f, ratio, floor, n) >= at.len(),
    decreases n,
{
    if n <= 0 {
        if at.len() > 0 {
            assert(at[0] < n);
        }
    } else if at.len() > 0 && at.last() == n - 1 {
        let front = at.drop_last();
        assert forall|i: int| 0 <= i < front.len() implies front[i] < n - 1 by {
            assert(at[i] < at[at.len() - 1]);
        }
        assert(stand_out_at(f, ratio, floor, front, front.len() as int)) by {
            assert forall|i: int| 0 <= i < front.len() implies 0 <= #[trigger] front[i] < f.rises@.len() && stands_out(
                f,
                f.rises@[front[i]],
                ratio,
                floor,
            ) by {
                assert(front[i] == at[i]);
            }
        }
        assert(stands_out(f, f.rises@[at[at.len() - 1]], ratio, floor));
        lemma_finds_count(f, ratio, floor, front, n - 1);
    } else {
        assert forall|i: int| 0 <= i < at.len() implies at[i] < n - 1 by {
            if i < at.len() - 1 {
                assert(at[i] < at[at.len() - 1]);
            }
        }
        lemma_finds_count(f, ratio, floor, at, n - 1);
    }
}

proof fn lemma_spike_steps(active: bool, f: SpikeFigures, ratio: Level, release: Level, floor: Level)
    ensures
        spike_steps(active, spike_next(active, f, ratio, release, floor), f, ratio, release, floor),
{
    let n = f.rises@.len() as int;
    let at = lemma_count_finds(f, ratio, floor, n);
    if at.len() >= 6 {
        let six = at.take(6);
        assert(stand_out_at(f, ratio, floor, six, 6)) by {
            assert forall|i: int| 0 <= i < 6 implies 0 <= #[trigger] six[i] < f.rises@.len() && stands_out(
                f,
                f.rises@[six[i]],
                ratio,
                floor,
            ) by {
                assert(six[i] == at[i]);
            }
        }
    }
    if exists|six: Seq<int>| stand_out_at(f, ratio, floor, six, 6) {
        let six = choose|six: Seq<int>| stand_out_at(f, ratio, floor, six, 6);
        lemma_finds_count(f, ratio, floor, six, n);
    }
}

/// Spikes of CPU and network are judged over seventy samples, each by its own figures and its own floor,
/// and a loss of memory by how far the mean fell. With fewer samples the signals stay.
pub proof fn lemma_spikes_follow_windows(m: DetectorModel, sample: SampleModel, f: Figures, now: Clock, frozen: bool)
    requires
        goes_on(m, now),
    ensures
        ({
            let lines = m.config.lines;
            let a = m.signals;
            let b = tick(m, sample, f, now, frozen).0.signals;
            let enough = m.history.len() + 1 >= 70;
            let based = above(f.mem_drop.baseline, Level::At(0x3ff0_0000_0000_0000));
            &&& enough ==> spike_steps(
                a.cpu_spike_active,
                b.cpu_spike_active,
                f.cpu_spike,
                lines.spike_ratio,
                lines.spike_release,
                lines.spike_min_cpu_percent,
            )
            &&& enough ==> spike_steps(
                a.net_spike_active,
                b.net_spike_active,
                f.net_spike,
                lines.spike_ratio,
                lines.spike_release,
                lines.spike_min_bps,
            )
            &&& enough && based && above(f.mem_drop.fall, lines.spike_ratio) ==> b.mem_spike_active
            &&& enough && based && !above(f.mem_drop.fall, lines.spike_ratio) && above(lines.spike_release, f.mem_drop.fall)
                ==> !b.mem_spike_active
            &&& enough && (!based || !above(f.mem_drop.fall, lines.spike_ratio) && !above(
                lines.spike_release,
                f.mem_drop.fall,
            )) ==> b.mem_spike_active == a.mem_spike_active
            &&& !enough ==> b.cpu_spike_active == a.cpu_spike_active && b.net_spike_active == a.net_spike_active
                && b.mem_spike_active == a.mem_spike_active
        }),
{
    let lines = m.config.lines;
    lemma_spike_steps(m.signals.cpu_spike_active, f.cpu_spike, lines.spike_ratio, lines.spike_release, lines.spike_min_cpu_percent);
    lemma_spike_steps(m.signals.net_spike_active, f.net_spike, lines.spike_ratio, lines.spike_release, lines.spike_min_bps);
}

/// The history holds the latest samples, at most a hundred and twenty of them, the newest last.
pub proof fn lemma_history_is_recent(m: DetectorModel, sample: SampleModel, f: Figures, now: Clock, frozen: bool)
    requires
        m.history.len() <= 120,
    ensures
        ({
            let h = tick(m, sample, f, now, frozen).0.history;
            let r = sample.readings;
            &&& 1 <= h.len() <= 120
            &&& h.last() == (HistoryPoint {
                cpu_usage: r.cpu_usage,
                net_sent_bps: r.net_sent_bps,
                net_recv_bps: r.net_recv_bps,
                mem_available_mb: r.mem_available_mb,
            })
            &&& goes_on(m, now) ==> h.drop_last().is_suffix_of(m.history)
            &&& goes_on(m, now) && m.history.len() < 120 ==> h.drop_last() == m.history
            &&& goes_on(m, now) && m.history.len() == 120 ==> h.len() == 120
            &&& !goes_on(m, now) ==> h.len() == 1
        }),
{
    let h = tick(m, sample, f, now, frozen).0.history;
    if goes_on(m, now) {
        if m.history.len() < 120 {
            assert(h.drop_last() =~= m.history);
            assert(m.history.subrange(0, m.history.len() as int) =~= m.history);
        } else {
            assert(h.drop_last() =~= m.history.subrange(1, 120));
        }
    }
}

/// After an interruption nothing of the time before counts: the tick goes as the first one of a detector
/// with the same settings does, but for the peak clock and the time of the last probe.
pub proof fn lemma_interruption_starts_anew(m: DetectorModel, sample: SampleModel, f: Figures, now: Clock, frozen: bool)
    requires
        !goes_on(m, now),
    ensures
        ({
            let new = DetectorModel {
                config: m.config,
                history: seq![],
                stutter_start: None,
                causes: seq![],
                signals: m.signals,
                last_ui_probe: m.last_ui_probe,
                last_tick: None,
                culprits: seq![],
                first_touch: seq![],
                need_snapshot: false,
                freq_peak: m.freq_peak,
            };
            let off = Latch { active: false, band_since: None };
            let quiet = Signals {
                cpu: off,
                mem_level: MemLatch { active: false, suppressed: false, active_since: None, band_since: None },
                disk_busy: off,
                dpc: off,
                interrupt: off,
                ctx_switch: off,
                thermal_active: false,
                cpu_spike_active: false,
                net_spike_active: false,
                mem_spike_active: false,
                ui_freeze_active: false,
            };
            tick(m, sample, f, now, frozen) == tick(DetectorModel { signals: quiet, ..new }, sample, f, now, frozen)
        }),
{
}

/// A new detector has seen nothing: no signal is on, no stutter is followed, and nothing is remembered.
pub proof fn lemma_new_detectors(config: DetectionModel)
    ensures
        ({
            let m = fresh(config);
            let s = m.signals;
            &&& m.config == config
            &&& m.history.len() == 0 && m.causes.len() == 0 && m.culprits.len() == 0 && m.first_touch.len() == 0
            &&& m.stutter_start is None && m.last_tick is None && m.last_ui_probe is None && m.freq_peak is None
            &&& !m.need_snapshot
            &&& !s.cpu.active && !s.mem_level.active && !s.mem_level.suppressed && !s.disk_busy.active && !s.dpc.active
                && !s.interrupt.active && !s.ctx_switch.active
            &&& !s.thermal_active && !s.cpu_spike_active && !s.net_spike_active && !s.mem_spike_active && !s.ui_freeze_active
        }),
{
}

/// The last ten points of a window are recent, all where there are no more; what comes before is the baseline.
/// The traffic of a point is what was sent and received together.
pub proof fn lemma_recent_points(points: Seq<HistoryPoint>, i: int)
    requires
        0 <= i < points.len(),
    ensures
        points.len() <= 10 ==> recent_from(points.len() as int) == 0,
        points.len() > 10 ==> points.skip(recent_from(points.len() as int)).len() == 10,
        traffic(points[i]) == points[i].net_sent_bps + points[i].net_recv_bps,
{
}

/// Sudden changes are judged from seventy points on; how many more are remembered does not matter.
pub proof fn lemma_windows_are_seventy_points(a: Signals, f: Figures, n: int, m: int, lines: Lines)
    requires
        n >= 70,
        m >= 70,
    ensures
        spikes_next(lines, a, n, f) == spikes_next(lines, a, m, f),
        spikes_next(lines, a, 69, f) == a,
{
}

/// A window is the last seventy points, and there is none before there are seventy.
pub proof fn lemma_windows_are_last(history: Seq<HistoryPoint>)
    ensures
        window_of(history) is Some <==> history.len() >= 70,
        window_of(history) is Some ==> window_of(history)->0.len() == 70 && window_of(history)->0.is_suffix_of(history),
{
    if history.len() >= 70 {
        let w = window_of(history)->0;
        assert(w =~= history.subrange(history.len() - 70, history.len() as int));
    }
}

} // verus!
