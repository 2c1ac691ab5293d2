//! What holds of the detector over all its runs.

use crate::cause::{
    first_prefix, key_of, kind_of, lemma_known_prefix, prefix_text, touch_of, CauseKind, Severity, PREFIX_COUNT,
};
use crate::config::{DetectionModel, Lines};
use crate::detector::{
    causes_joined, core_report, cpu_report, disk_calm, disk_over, disk_report, duration_ms, each_once, followed,
    forgotten, freeze_text, fresh, hard_causes, hard_next, has_pressure, has_touch, interrupted, key_at,
    kinds_by_touch, kinds_of, latched, mem_calm, mem_next, mem_report, observed, passed, pid_at, probes,
    reading_next, severity_of, sighted_all, spike_causes, tick, touch_keys, touched, touched_all, weighty_count, Clock, DetectorModel, Figures, Latch,
    MemLatch, Signals, HISTORY_MAX, NS_PER_MS, NS_PER_SEC, UI_PROBE_INTERVAL_NS,
};
use crate::level::{above, Level};
use crate::order::{ascending, lemma_ascending, lemma_position};
use crate::types::{distinct_pids, lemma_top_merged, ProcessModel, Readings, SampleModel};
use vstd::prelude::*;

verus! {

/// The number of the prefix of a frozen window.
pub open spec fn freeze_prefix() -> int {
    8
}

/// A signal that is not active has no time of holding.
pub open spec fn latch_ok(l: Latch) -> bool {
    !l.active ==> l.band_since is None
}

/// The water mark is either active since some time, or not, and never both active and suppressed.
pub open spec fn mem_ok(l: MemLatch) -> bool {
    &&& !(l.active && l.suppressed)
    &&& l.active <==> l.active_since is Some
    &&& !l.active ==> l.band_since is None
}

/// The signals are consistent.
pub open spec fn signals_ok(s: Signals) -> bool {
    &&& latch_ok(s.cpu)
    &&& mem_ok(s.mem_level)
    &&& latch_ok(s.disk_busy)
    &&& latch_ok(s.dpc)
    &&& latch_ok(s.interrupt)
    &&& latch_ok(s.ctx_switch)
}

/// Every cause has a known prefix, and no prefix occurs twice.
pub open spec fn one_of_each(causes: Seq<Seq<char>>) -> bool {
    &&& forall|i: int| 0 <= i < causes.len() ==> first_prefix(#[trigger] causes[i], 0) < PREFIX_COUNT
    &&& forall|i: int, j: int|
        0 <= i < j < causes.len() ==> first_prefix(#[trigger] causes[i], 0) != first_prefix(#[trigger] causes[j], 0)
}

/// Some cause is not a frozen window.
pub open spec fn not_only_frozen(causes: Seq<Seq<char>>) -> bool {
    exists|i: int| 0 <= i < causes.len() && first_prefix(#[trigger] causes[i], 0) != freeze_prefix()
}

/// No kind is noted twice.
pub open spec fn distinct_touches(touches: Seq<(CauseKind, u64)>) -> bool {
    forall|i: int, j: int| 0 <= i < j < touches.len() ==> touches[i].0 != touches[j].0
}

/// The kind of every cause is noted.
pub open spec fn all_touched(causes: Seq<Seq<char>>, touches: Seq<(CauseKind, u64)>) -> bool {
    forall|i: int|
        0 <= i < causes.len() ==> match kind_of(#[trigger] causes[i]) {
            Some(k) => has_touch(touches, k),
            None => true,
        }
}

/// What holds of a detector between ticks.
pub open spec fn well_formed(m: DetectorModel) -> bool {
    &&& m.history.len() <= HISTORY_MAX
    &&& signals_ok(m.signals)
    &&& m.need_snapshot == (m.stutter_start is Some)
    &&& m.stutter_start is None ==> m.causes.len() == 0 && m.culprits.len() == 0 && m.first_touch.len() == 0
    &&& m.stutter_start is Some ==> not_only_frozen(m.causes)
    &&& one_of_each(m.causes)
    &&& all_touched(m.causes, m.first_touch)
    &&& distinct_touches(m.first_touch)
    &&& distinct_pids(m.culprits)
}

/// A new detector is well formed.
pub proof fn lemma_fresh_is_well_formed(config: DetectionModel)
    ensures
        well_formed(fresh(config)),
{
}

/// Causes with distinct known prefixes out of a set.
pub open spec fn drawn_from(causes: Seq<Seq<char>>, used: Set<int>) -> bool {
    &&& one_of_each(causes)
    &&& forall|i: int| 0 <= i < causes.len() ==> used.contains(first_prefix(#[trigger] causes[i], 0))
}

proof fn lemma_draw(causes: Seq<Seq<char>>, used: Set<int>, text: Seq<char>, p: int)
    requires
        drawn_from(causes, used),
        !used.contains(p),
        0 <= p < PREFIX_COUNT,
        prefix_text(p).is_prefix_of(text),
    ensures
        drawn_from(causes.push(text), used.insert(p)),
        drawn_from(causes, used.insert(p)),
        first_prefix(text, 0) == p,
{
    lemma_known_prefix(text, p);
    let longer = causes.push(text);
    assert forall|i: int, j: int| 0 <= i < j < longer.len() implies first_prefix(#[trigger] longer[i], 0) != first_prefix(
        #[trigger] longer[j],
        0,
    ) by {
        assert(longer[i] == causes[i]);
    }
}

proof fn lemma_maybe_draw(causes: Seq<Seq<char>>, used: Set<int>, text: Seq<char>, p: int, drawn: bool)
    requires
        drawn_from(causes, used),
        !used.contains(p),
        0 <= p < PREFIX_COUNT,
        prefix_text(p).is_prefix_of(text),
    ensures
        drawn_from(
            if drawn {
                causes.push(text)
            } else {
                causes
            },
            used.insert(p),
        ),
{
    lemma_draw(causes, used, text, p);
}

/// A text that is put together begins with what its first part begins with.
proof fn lemma_begins(p: Seq<char>, a: Seq<char>, b: Seq<char>, c: Seq<char>, d: Seq<char>, e: Seq<char>)
    requires
        p.is_prefix_of(a),
    ensures
        p.is_prefix_of(a + b + c + d + e),
        p.is_prefix_of(a + b + c),
{
    assert(p =~= (a + b + c + d + e).subrange(0, p.len() as int));
    assert(p =~= (a + b + c).subrange(0, p.len() as int));
}

/// The openings of the texts of the detector begin with the known prefixes.
proof fn lemma_openings()
    ensures
        prefix_text(0).is_prefix_of("CPU usage "@),
        prefix_text(12).is_prefix_of("Available memory "@),
        prefix_text(10).is_prefix_of("Memory usage "@),
        prefix_text(14).is_prefix_of("Memory paging "@),
        prefix_text(3).is_prefix_of("Disk busy "@),
        prefix_text(4).is_prefix_of("DPC time "@),
        prefix_text(5).is_prefix_of("Interrupt time "@),
        prefix_text(6).is_prefix_of("Context switches "@),
        prefix_text(7).is_prefix_of("Thermal throttle: CPU "@),
        prefix_text(11).is_prefix_of("Memory available spike: "@),
        prefix_text(8).is_prefix_of("UI frozen (前台窗口无响应 "@),
        prefix_text(1).is_prefix_of("CPU"@ + " spike: "@),
        prefix_text(9).is_prefix_of("Network"@ + " spike: "@),
{
    reveal_strlit("CPU usage");
    reveal_strlit("CPU usage ");
    assert("CPU usage"@ =~= "CPU usage "@.subrange(0, 9));
    reveal_strlit("Available memory");
    reveal_strlit("Available memory ");
    assert("Available memory"@ =~= "Available memory "@.subrange(0, 16));
    reveal_strlit("Memory usage");
    reveal_strlit("Memory usage ");
    assert("Memory usage"@ =~= "Memory usage "@.subrange(0, 12));
    reveal_strlit("Memory paging");
    reveal_strlit("Memory paging ");
    assert("Memory paging"@ =~= "Memory paging "@.subrange(0, 13));
    reveal_strlit("Disk busy");
    reveal_strlit("Disk busy ");
    assert("Disk busy"@ =~= "Disk busy "@.subrange(0, 9));
    reveal_strlit("DPC time");
    reveal_strlit("DPC time ");
    assert("DPC time"@ =~= "DPC time "@.subrange(0, 8));
    reveal_strlit("Interrupt time");
    reveal_strlit("Interrupt time ");
    assert("Interrupt time"@ =~= "Interrupt time "@.subrange(0, 14));
    reveal_strlit("Context switches");
    reveal_strlit("Context switches ");
    assert("Context switches"@ =~= "Context switches "@.subrange(0, 16));
    reveal_strlit("Thermal throttle");
    reveal_strlit("Thermal throttle: CPU ");
    assert("Thermal throttle"@ =~= "Thermal throttle: CPU "@.subrange(0, 16));
    reveal_strlit("Memory available");
    reveal_strlit("Memory available spike: ");
    assert("Memory available"@ =~= "Memory available spike: "@.subrange(0, 16));
    reveal_strlit("UI frozen");
    reveal_strlit("UI frozen (前台窗口无响应 ");
    assert("UI frozen"@ =~= "UI frozen (前台窗口无响应 "@.subrange(0, 9));
    reveal_strlit("CPU");
    reveal_strlit("Network");
    reveal_strlit(" spike: ");
    reveal_strlit("CPU spike");
    assert("CPU spike"@ =~= ("CPU"@ + " spike: "@).subrange(0, 9));
    assert("Network"@ =~= ("Network"@ + " spike: "@).subrange(0, 7));
}

/// The prefixes of causes by threshold.
pub open spec fn hard_prefixes() -> Set<int> {
    Set::<int>::empty().insert(0).insert(12).insert(10).insert(14).insert(3).insert(4).insert(5).insert(6).insert(7)
}

/// The causes by threshold of a tick have nine prefixes at most, and none of them twice.
pub proof fn lemma_hard_causes(cfg: DetectionModel, s: Signals, r: Readings, f: Figures)
    ensures
        drawn_from(hard_causes(cfg, s, r, f), hard_prefixes()),
{
    lemma_openings();
    let t = cfg.texts;
    let u0 = Set::<int>::empty();
    let c1 = cpu_report(cfg, s, r, f, seq![]);
    let u1 = u0.insert(0);
    lemma_begins(prefix_text(0), "CPU usage "@, f.cpu_text@, "% > "@, t.cpu_threshold, "%"@);
    lemma_begins(prefix_text(0), "CPU usage "@, f.cpu_text@, "%（滞回保持，阈值 "@, t.cpu_threshold, "%）"@);
    lemma_draw(seq![], u0, "CPU usage "@ + f.cpu_text@ + "% > "@ + t.cpu_threshold + "%"@, 0);
    lemma_draw(seq![], u0, "CPU usage "@ + f.cpu_text@ + "%（滞回保持，阈值 "@ + t.cpu_threshold + "%）"@, 0);
    assert(drawn_from(c1, u1));
    let c2 = mem_report(cfg, s, r, f, c1);
    let avail = "Available memory "@ + crate::text::decimal(r.mem_available_mb as nat) + "MB < "@ + crate::text::decimal(
        cfg.lines.mem_threshold_mb as nat,
    ) + "MB"@;
    let usage = "Memory usage "@ + f.mem_text@ + "% > "@ + t.mem_threshold_percent + "%"@;
    let paging = "Memory paging "@ + f.page_reads_text@ + "/s > "@ + t.page_reads_threshold + "/s"@;
    lemma_begins(
        prefix_text(12),
        "Available memory "@,
        crate::text::decimal(r.mem_available_mb as nat),
        "MB < "@,
        crate::text::decimal(cfg.lines.mem_threshold_mb as nat),
        "MB"@,
    );
    lemma_begins(prefix_text(10), "Memory usage "@, f.mem_text@, "% > "@, t.mem_threshold_percent, "%"@);
    lemma_begins(prefix_text(14), "Memory paging "@, f.page_reads_text@, "/s > "@, t.page_reads_threshold, "/s"@);
    let avail_on = s.mem_level.active && crate::detector::mem_available_under(cfg.lines, r);
    let usage_on = s.mem_level.active && crate::detector::mem_usage_over(cfg.lines, r);
    let ca = if avail_on {
        c1.push(avail)
    } else {
        c1
    };
    let cb = if usage_on {
        ca.push(usage)
    } else {
        ca
    };
    lemma_maybe_draw(c1, u1, avail, 12, avail_on);
    lemma_maybe_draw(ca, u1.insert(12), usage, 10, usage_on);
    lemma_maybe_draw(
        cb,
        u1.insert(12).insert(10),
        paging,
        14,
        crate::detector::paging_counts(cfg.lines, f.commit_percent, r),
    );
    let u2 = u1.insert(12).insert(10).insert(14);
    assert(drawn_from(c2, u2));
    let c3 = disk_report(s, f, c2);
    lemma_begins(prefix_text(3), "Disk busy "@, f.disk_busy_text@, "% (IO "@, f.disk_io_text@, "ms)"@);
    lemma_maybe_draw(
        c2,
        u2,
        "Disk busy "@ + f.disk_busy_text@ + "% (IO "@ + f.disk_io_text@ + "ms)"@,
        3,
        s.disk_busy.active,
    );
    let u3 = u2.insert(3);
    let dpc = "DPC time "@ + f.dpc_text@ + "% > "@ + t.dpc_threshold_percent + "%"@;
    let intr = "Interrupt time "@ + f.interrupt_text@ + "% > "@ + t.interrupt_threshold_percent + "%"@;
    let ctx = "Context switches "@ + f.ctx_switch_text@ + "/s > "@ + t.context_switch_threshold_per_sec + "/s"@;
    lemma_begins(prefix_text(4), "DPC time "@, f.dpc_text@, "% > "@, t.dpc_threshold_percent, "%"@);
    lemma_begins(prefix_text(5), "Interrupt time "@, f.interrupt_text@, "% > "@, t.interrupt_threshold_percent, "%"@);
    lemma_begins(
        prefix_text(6),
        "Context switches "@,
        f.ctx_switch_text@,
        "/s > "@,
        t.context_switch_threshold_per_sec,
        "/s"@,
    );
    let cd = if s.dpc.active {
        c3.push(dpc)
    } else {
        c3
    };
    let ci = if s.interrupt.active {
        cd.push(intr)
    } else {
        cd
    };
    lemma_maybe_draw(c3, u3, dpc, 4, s.dpc.active);
    lemma_maybe_draw(cd, u3.insert(4), intr, 5, s.interrupt.active);
    lemma_maybe_draw(ci, u3.insert(4).insert(5), ctx, 6, s.ctx_switch.active);
    let c4 = core_report(cfg, s, f, c3);
    let u4 = u3.insert(4).insert(5).insert(6);
    assert(drawn_from(c4, u4));
    let th = "Thermal throttle: CPU "@ + f.thermal.temp_text@ + "°C, freq "@ + f.thermal.freq_text@ + "MHz < "@;
    let rest = f.thermal.peak_text@;
    let drop = crate::text::decimal_signed(f.thermal.drop_percent as int);
    lemma_begins(
        prefix_text(7),
        "Thermal throttle: CPU "@,
        f.thermal.temp_text@,
        "°C, freq "@,
        f.thermal.freq_text@,
        "MHz < "@,
    );
    lemma_begins(prefix_text(7), th, rest, "MHz (drop "@, drop, "%)"@);
    lemma_maybe_draw(
        c4,
        u4,
        th + rest + "MHz (drop "@ + drop + "%)"@,
        7,
        s.thermal_active && r.cpu_temp is Some,
    );
}

proof fn lemma_spike_causes(s: Signals, history: int, f: Figures, causes: Seq<Seq<char>>)
    requires
        drawn_from(causes, hard_prefixes()),
    ensures
        drawn_from(spike_causes(s, history, f, causes), hard_prefixes().insert(1).insert(9).insert(11)),
{
    lemma_openings();
    let u = hard_prefixes();
    let cpu = "CPU"@ + " spike: "@ + f.cpu_spike.baseline_text@ + "%"@ + " → "@ + f.cpu_spike.recent_text@ + "%"@;
    let net = "Network"@ + " spike: "@ + f.net_spike.baseline_text@ + "B/s"@ + " → "@ + f.net_spike.recent_text@ + "B/s"@;
    let mem = "Memory available spike: "@ + f.mem_drop.baseline_text@ + "MB → "@ + f.mem_drop.recent_text@ + "MB"@;
    lemma_begins(
        prefix_text(1),
        "CPU"@ + " spike: "@,
        f.cpu_spike.baseline_text@,
        "%"@,
        " → "@,
        f.cpu_spike.recent_text@,
    );
    lemma_begins(
        prefix_text(1),
        "CPU"@ + " spike: "@ + f.cpu_spike.baseline_text@ + "%"@ + " → "@ + f.cpu_spike.recent_text@,
        "%"@,
        seq![],
        seq![],
        seq![],
    );
    assert(cpu + seq![] =~= cpu);
    lemma_begins(
        prefix_text(9),
        "Network"@ + " spike: "@,
        f.net_spike.baseline_text@,
        "B/s"@,
        " → "@,
        f.net_spike.recent_text@,
    );
    lemma_begins(
        prefix_text(9),
        "Network"@ + " spike: "@ + f.net_spike.baseline_text@ + "B/s"@ + " → "@ + f.net_spike.recent_text@,
        "B/s"@,
        seq![],
        seq![],
        seq![],
    );
    assert(net + seq![] =~= net);
    lemma_begins(
        prefix_text(11),
        "Memory available spike: "@,
        f.mem_drop.baseline_text@,
        "MB → "@,
        f.mem_drop.recent_text@,
        "MB"@,
    );
    let c1 = if s.cpu_spike_active {
        causes.push(cpu)
    } else {
        causes
    };
    let c2 = if s.net_spike_active {
        c1.push(net)
    } else {
        c1
    };
    lemma_maybe_draw(causes, u, cpu, 1, s.cpu_spike_active);
    lemma_maybe_draw(c1, u.insert(1), net, 9, s.net_spike_active);
    lemma_maybe_draw(
        c2,
        u.insert(1).insert(9),
        mem,
        11,
        above(f.mem_drop.baseline, Level::At(crate::detector::ONE)) && s.mem_spike_active,
    );
}

/// The causes that one tick finds are of distinct known kinds of text, and a frozen window is
/// not among them.
pub proof fn lemma_observed_causes(m: DetectorModel, r: Readings, f: Figures, now: Clock)
    ensures
        one_of_each(observed(m, r, f, now).1),
        forall|i: int|
            0 <= i < observed(m, r, f, now).1.len() ==> first_prefix(#[trigger] observed(m, r, f, now).1[i], 0)
                != freeze_prefix(),
{
    let m1 = if interrupted(m, now) {
        forgotten(m)
    } else {
        m
    };
    let peak = crate::detector::peak_next(m1.freq_peak, r.cpu_freq_mhz, f.thermal.faded_peak);
    let hard = hard_next(m.config.lines, m1.signals, r, peak, f, now);
    let seen = observed(m, r, f, now).0;
    lemma_hard_causes(m.config, hard, r, f);
    lemma_spike_causes(seen.signals, seen.history.len() as int, f, hard_causes(m.config, hard, r, f));
    let causes = observed(m, r, f, now).1;
    let u = hard_prefixes().insert(1).insert(9).insert(11);
    assert(drawn_from(causes, u));
    assert(!u.contains(freeze_prefix()));
}

proof fn lemma_latched(l: Latch, over: bool, calm: bool, max_hold_secs: u32, now: u64)
    ensures
        latch_ok(latched(l, over, calm, max_hold_secs, now)),
{
}

proof fn lemma_mem_next(lines: Lines, s: MemLatch, r: Readings, now: Clock)
    requires
        mem_ok(s),
    ensures
        mem_ok(mem_next(lines, s, r, now)),
{
}

proof fn lemma_hard_next(lines: Lines, s: Signals, r: Readings, peak: Option<Level>, f: Figures, now: Clock)
    requires
        signals_ok(s),
    ensures
        signals_ok(hard_next(lines, s, r, peak, f, now)),
{
    let hold = lines.hysteresis_hold_max_secs;
    let at = now.steady_ns;
    lemma_mem_next(lines, s.mem_level, r, now);
    lemma_latched(s.cpu, above(r.cpu_usage, lines.cpu_threshold), above(lines.cpu_exit, r.cpu_usage), hold, at);
    lemma_latched(s.disk_busy, disk_over(lines, r), disk_calm(lines, r), hold, at);
    lemma_latched(s.dpc, above(r.dpc_percent, lines.dpc_threshold_percent), above(lines.dpc_exit, r.dpc_percent), hold, at);
    lemma_latched(
        s.interrupt,
        above(r.interrupt_percent, lines.interrupt_threshold_percent),
        above(lines.interrupt_exit, r.interrupt_percent),
        hold,
        at,
    );
    lemma_latched(
        s.ctx_switch,
        above(r.context_switches_per_sec, lines.context_switch_threshold_per_sec),
        above(lines.context_switch_exit, r.context_switches_per_sec),
        hold,
        at,
    );
}

proof fn lemma_signals_next(m: DetectorModel, r: Readings, f: Figures, now: Clock)
    requires
        signals_ok(m.signals),
    ensures
        signals_ok(observed(m, r, f, now).0.signals),
{
    let m1 = if interrupted(m, now) {
        forgotten(m)
    } else {
        m
    };
    let peak = crate::detector::peak_next(m1.freq_peak, r.cpu_freq_mhz, f.thermal.faded_peak);
    lemma_hard_next(m.config.lines, m1.signals, r, peak, f, now);
}

proof fn lemma_pid_at(s: Seq<ProcessModel>, pid: u32, i: int)
    requires
        0 <= i <= s.len(),
    ensures
        i <= pid_at(s, pid, i) <= s.len(),
        pid_at(s, pid, i) < s.len() ==> s[pid_at(s, pid, i)].pid == pid,
        forall|j: int| i <= j < pid_at(s, pid, i) ==> (#[trigger] s[j]).pid != pid,
    decreases s.len() - i,
{
    if i < s.len() && s[i].pid != pid {
        lemma_pid_at(s, pid, i + 1);
    }
}

pub(crate) proof fn lemma_sighted_all(culprits: Seq<ProcessModel>, seen: Seq<ProcessModel>)
    requires
        distinct_pids(culprits),
    ensures
        distinct_pids(sighted_all(culprits, seen)),
    decreases seen.len(),
{
    if seen.len() > 0 {
        lemma_sighted_all(culprits, seen.drop_last());
        let before = sighted_all(culprits, seen.drop_last());
        lemma_pid_at(before, seen.last().pid, 0);
    }
}

proof fn lemma_touched(touches: Seq<(CauseKind, u64)>, cause: Seq<char>, now: u64)
    requires
        distinct_touches(touches),
    ensures
        distinct_touches(touched(touches, cause, now)),
        kind_of(cause) is Some ==> has_touch(touched(touches, cause, now), kind_of(cause)->0),
        touches.is_prefix_of(touched(touches, cause, now)),
{
    let next = touched(touches, cause, now);
    if kind_of(cause) is Some && !has_touch(touches, kind_of(cause)->0) {
        assert(next[touches.len() as int].0 == kind_of(cause)->0);
        assert forall|i: int, j: int| 0 <= i < j < next.len() implies next[i].0 != next[j].0 by {
            assert(touches[i].0 == next[i].0);
        }
    }
    assert(touches =~= next.subrange(0, touches.len() as int));
}

proof fn lemma_touches_kept(causes: Seq<Seq<char>>, a: Seq<(CauseKind, u64)>, b: Seq<(CauseKind, u64)>)
    requires
        all_touched(causes, a),
        a.is_prefix_of(b),
    ensures
        all_touched(causes, b),
{
    assert forall|i: int| 0 <= i < causes.len() implies match kind_of(#[trigger] causes[i]) {
        Some(k) => has_touch(b, k),
        None => true,
    } by {
        if let Some(k) = kind_of(causes[i]) {
            let n = choose|n: int| 0 <= n < a.len() && (#[trigger] a[n]).0 == k;
            assert(b[n] == a[n]);
        }
    }
}

pub(crate) proof fn lemma_touched_all(causes: Seq<Seq<char>>, now: u64)
    ensures
        distinct_touches(touched_all(seq![], causes, now)),
        all_touched(causes, touched_all(seq![], causes, now)),
        forall|i: int|
            0 <= i < touched_all(seq![], causes, now).len() ==> (#[trigger] touched_all(seq![], causes, now)[i]).1 == now,
    decreases causes.len(),
{
    if causes.len() > 0 {
        let front = causes.drop_last();
        let before = touched_all(seq![], front, now);
        lemma_touched_all(front, now);
        lemma_touched(before, causes.last(), now);
        let after = touched(before, causes.last(), now);
        lemma_touches_kept(front, before, after);
        assert forall|i: int| 0 <= i < causes.len() implies match kind_of(#[trigger] causes[i]) {
            Some(k) => has_touch(after, k),
            None => true,
        } by {
            if i < front.len() {
                assert(front[i] == causes[i]);
            }
        }
    }
}

proof fn lemma_key_at(causes: Seq<Seq<char>>, key: Seq<char>, i: int)
    requires
        0 <= i <= causes.len(),
    ensures
        i <= key_at(causes, key, i) <= causes.len(),
        key_at(causes, key, i) < causes.len() ==> key_of(causes[key_at(causes, key, i)]) == key,
        forall|j: int| i <= j < key_at(causes, key, i) ==> key_of(#[trigger] causes[j]) != key,
    decreases causes.len() - i,
{
    if i < causes.len() && key_of(causes[i]) != key {
        lemma_key_at(causes, key, i + 1);
    }
}

/// Two texts of known prefixes have the same key exactly where they have the same prefix.
pub(crate) proof fn lemma_same_key(a: Seq<char>, b: Seq<char>)
    requires
        0 <= first_prefix(a, 0) < PREFIX_COUNT,
        0 <= first_prefix(b, 0) < PREFIX_COUNT,
    ensures
        key_of(a) == key_of(b) <==> first_prefix(a, 0) == first_prefix(b, 0),
        key_of(a) == key_of(b) ==> kind_of(a) == kind_of(b),
{
    if key_of(a) == key_of(b) {
        crate::cause::lemma_key_and_kind_agree(a, b);
        lemma_known_prefix(a, first_prefix(b, 0));
    }
}

proof fn lemma_prefix_range(cause: Seq<char>, i: int)
    requires
        0 <= i <= PREFIX_COUNT,
    ensures
        first_prefix(cause, i) >= i,
    decreases PREFIX_COUNT - i,
{
    if i < PREFIX_COUNT && !prefix_text(i).is_prefix_of(cause) {
        lemma_prefix_range(cause, i + 1);
    }
}

proof fn lemma_causes_joined(causes: Seq<Seq<char>>, touches: Seq<(CauseKind, u64)>, new: Seq<Seq<char>>, now: u64)
    requires
        one_of_each(causes),
        not_only_frozen(causes),
        all_touched(causes, touches),
        distinct_touches(touches),
        forall|i: int| 0 <= i < new.len() ==> first_prefix(#[trigger] new[i], 0) < PREFIX_COUNT,
    ensures
        one_of_each(causes_joined(causes, touches, new, now).0),
        not_only_frozen(causes_joined(causes, touches, new, now).0),
        all_touched(causes_joined(causes, touches, new, now).0, causes_joined(causes, touches, new, now).1),
        distinct_touches(causes_joined(causes, touches, new, now).1),
        touches.is_prefix_of(causes_joined(causes, touches, new, now).1),
    decreases new.len(),
{
    if new.len() == 0 {
        assert(touches =~= touches.subrange(0, touches.len() as int));
    } else {
        let front = new.drop_last();
        let x = new.last();
        assert forall|i: int| 0 <= i < front.len() implies first_prefix(#[trigger] front[i], 0) < PREFIX_COUNT by {
            assert(front[i] == new[i]);
        }
        assert(x == new[new.len() - 1]);
        lemma_causes_joined(causes, touches, front, now);
        let (c, t) = causes_joined(causes, touches, front, now);
        let at = key_at(c, key_of(x), 0);
        lemma_key_at(c, key_of(x), 0);
        lemma_prefix_range(x, 0);
        let (c2, t2) = causes_joined(causes, touches, new, now);
        let n = choose|n: int| 0 <= n < c.len() && first_prefix(#[trigger] c[n], 0) != freeze_prefix();
        assert forall|i: int| 0 <= i < c.len() implies (key_of(#[trigger] c[i]) == key_of(x) <==> first_prefix(c[i], 0)
            == first_prefix(x, 0)) by {
            lemma_prefix_range(c[i], 0);
            lemma_same_key(c[i], x);
        }
        if at < c.len() {
            lemma_prefix_range(c[at], 0);
            lemma_same_key(c[at], x);
            assert forall|i: int| 0 <= i < c2.len() implies first_prefix(#[trigger] c2[i], 0) == first_prefix(c[i], 0)
                && kind_of(c2[i]) == kind_of(c[i]) by {}
            assert(first_prefix(c2[n], 0) != freeze_prefix());
            assert forall|i: int, j: int| 0 <= i < j < c2.len() implies first_prefix(#[trigger] c2[i], 0) != first_prefix(
                #[trigger] c2[j],
                0,
            ) by {
                assert(first_prefix(c[i], 0) != first_prefix(c[j], 0));
            }
        } else {
            lemma_touched(t, x, now);
            lemma_touches_kept(c, t, t2);
            assert(c2 == c.push(x));
            assert(c2[n] == c[n]);
            assert forall|i: int, j: int| 0 <= i < j < c2.len() implies first_prefix(#[trigger] c2[i], 0) != first_prefix(
                #[trigger] c2[j],
                0,
            ) by {
                assert(c2[i] == c[i]);
                if j == c.len() {
                    assert(key_of(c[i]) != key_of(x));
                }
            }
            assert forall|i: int| 0 <= i < c2.len() implies match kind_of(#[trigger] c2[i]) {
                Some(k) => has_touch(t2, k),
                None => true,
            } by {
                if i < c.len() {
                    assert(c2[i] == c[i]);
                }
            }
            assert(touches =~= t2.subrange(0, touches.len() as int));
        }
    }
}

/// Every tick keeps a detector well formed: its history stays bounded, its signals consistent,
/// its causes one of each type with their first sightings noted, never a frozen window alone, and
/// it asks for process snapshots exactly while it follows a stutter.
pub proof fn lemma_tick_keeps_well_formed(m: DetectorModel, sample: SampleModel, f: Figures, now: Clock, frozen: bool)
    requires
        well_formed(m),
    ensures
        well_formed(tick(m, sample, f, now, frozen).0),
        tick(m, sample, f, now, frozen).0.config == m.config,
{
    let r = sample.readings;
    let (seen, causes) = observed(m, r, f, now);
    lemma_signals_next(m, r, f, now);
    lemma_observed_causes(m, r, f, now);
    assert(well_formed(DetectorModel { signals: m.signals, ..seen })) by {
        assert(well_formed(forgotten(m)));
    }
    if causes.len() > 0 {
        let after = followed(seen, causes, sample.top_processes, now, frozen);
        let freeze = after.signals.ui_freeze_active;
        let text = freeze_text(m.config.lines);
        let all = if freeze {
            causes.push(text)
        } else {
            causes
        };
        lemma_openings();
        lemma_begins(
            prefix_text(8),
            "UI frozen (前台窗口无响应 "@,
            crate::text::decimal(m.config.lines.ui_freeze_timeout_ms as nat),
            "ms)"@,
            seq![],
            seq![],
        );
        lemma_known_prefix(text, 8);
        assert(all[0] == causes[0]);
        assert(not_only_frozen(all));
        assert(one_of_each(all)) by {
            assert forall|i: int, j: int| 0 <= i < j < all.len() implies first_prefix(#[trigger] all[i], 0) != first_prefix(
                #[trigger] all[j],
                0,
            ) by {
                assert(all[i] == causes[i]);
            }
        }
        lemma_sighted_all(seen.culprits, sample.top_processes);
        if seen.stutter_start is Some {
            lemma_causes_joined(seen.causes, seen.first_touch, all, now.wall_ns);
        } else {
            assert(seen.first_touch =~= seq![]);
            lemma_touched_all(all, now.wall_ns);
        }
    }
}

/// A stutter is recorded only where it was being followed without interruption, lasted as long
/// as the settings ask, and had pressure among its causes; the event carries those causes, and
/// the detector no longer follows a stutter.
pub proof fn lemma_event_is_earned(m: DetectorModel, sample: SampleModel, f: Figures, now: Clock, frozen: bool)
    requires
        well_formed(m),
        tick(m, sample, f, now, frozen).1 is Some,
    ensures
        ({
            let (next, event) = tick(m, sample, f, now, frozen);
            let e = event->0;
            &&& m.stutter_start is Some
            &&& !interrupted(m, now)
            &&& e.duration_ms >= m.config.lines.sustained_seconds * 1000
            &&& e.duration_ms == duration_ms(m.stutter_start->0, now)
            &&& e.onset_ts == Some((m.stutter_start->0 / NS_PER_MS) as i64)
            &&& e.causes == m.causes
            &&& has_pressure(e.causes)
            &&& e.severity == severity_of(weighty_count(m.causes), e.duration_ms as int)
            &&& e.snapshot == sample
            &&& e.culprits.len() <= 6
            &&& distinct_pids(e.culprits)
            &&& next.stutter_start is None
            &&& !next.need_snapshot
        }),
{
    let seen = observed(m, sample.readings, f, now).0;
    let start = seen.stutter_start->0;
    assert(passed(start, now.wall_ns) / (NS_PER_MS as int) <= u64::MAX);
    lemma_top_merged(seen.culprits, 3, 3, 6);
}

/// A stutter that ends after long enough with pressure among its causes is recorded.
pub proof fn lemma_sustained_pressure_is_recorded(
    m: DetectorModel,
    sample: SampleModel,
    f: Figures,
    now: Clock,
    frozen: bool,
)
    requires
        m.stutter_start is Some,
        !interrupted(m, now),
        observed(m, sample.readings, f, now).1.len() == 0,
        duration_ms(m.stutter_start->0, now) >= m.config.lines.sustained_seconds * 1000,
        has_pressure(m.causes),
    ensures
        tick(m, sample, f, now, frozen).1 is Some,
{
}

/// What comes in at a tick.
pub struct TickInput {
    pub sample: SampleModel,
    pub figures: Figures,
    pub now: Clock,
    pub frozen: bool,
}

/// A detector after the ticks of a run.
pub open spec fn after_run(config: DetectionModel, inputs: Seq<TickInput>) -> DetectorModel
    decreases inputs.len(),
{
    if inputs.len() == 0 {
        fresh(config)
    } else {
        let last = inputs.last();
        tick(after_run(config, inputs.drop_last()), last.sample, last.figures, last.now, last.frozen).0
    }
}

/// A detector is well formed after every run, whatever came in, and keeps its settings.
pub proof fn lemma_runs_are_well_formed(config: DetectionModel, inputs: Seq<TickInput>)
    ensures
        well_formed(after_run(config, inputs)),
        after_run(config, inputs).config == config,
    decreases inputs.len(),
{
    if inputs.len() == 0 {
        lemma_fresh_is_well_formed(config);
    } else {
        let last = inputs.last();
        let before = after_run(config, inputs.drop_last());
        lemma_runs_are_well_formed(config, inputs.drop_last());
        lemma_tick_keeps_well_formed(before, last.sample, last.figures, last.now, last.frozen);
    }
}

/// A stutter of throughput alone is never recorded, however long it lasts.
pub proof fn lemma_throughput_is_no_stutter(m: DetectorModel, sample: SampleModel, f: Figures, now: Clock, frozen: bool)
    requires
        !has_pressure(m.causes),
    ensures
        tick(m, sample, f, now, frozen).1 is None,
{
}

/// An interruption of the sampling ends what was followed without an event, and a stutter that is
/// followed afterwards began at this tick: time without samples is in no stutter.
pub proof fn lemma_interruption_is_no_stutter(m: DetectorModel, sample: SampleModel, f: Figures, now: Clock, frozen: bool)
    requires
        interrupted(m, now),
    ensures
        tick(m, sample, f, now, frozen).1 is None,
        tick(m, sample, f, now, frozen).0.stutter_start is None || tick(m, sample, f, now, frozen).0.stutter_start == Some(
            now.wall_ns,
        ),
        tick(m, sample, f, now, frozen).0.history.len() == 1,
{
}

/// The foreground window is asked only in a tick that has a cause, and not again within two
/// seconds; the time of asking is noted exactly then.
pub proof fn lemma_probes_are_spaced(m: DetectorModel, sample: SampleModel, f: Figures, now: Clock, frozen: bool)
    ensures
        probes(m, sample.readings, f, now) ==> observed(m, sample.readings, f, now).1.len() > 0,
        probes(m, sample.readings, f, now) && m.last_ui_probe is Some ==> passed(m.last_ui_probe->0, now.steady_ns)
            >= UI_PROBE_INTERVAL_NS,
        tick(m, sample, f, now, frozen).0.last_ui_probe == (if probes(m, sample.readings, f, now) {
            Some(now.steady_ns)
        } else {
            m.last_ui_probe
        }),
        !probes(m, sample.readings, f, now) ==> tick(m, sample, f, now, true) == tick(m, sample, f, now, false),
{
}

/// Between its lines a signal keeps its state until it has been held for the longest allowed
/// time; then it is released. Above its line it is active, below its exit line it is not.
pub proof fn lemma_hysteresis(l: Latch, value: Level, threshold: Level, exit: Level, max_hold_secs: u32, now: Clock)
    ensures
        above(value, threshold) ==> reading_next(l, value, threshold, exit, max_hold_secs, now) == (Latch {
            active: true,
            band_since: None,
        }),
        above(exit, value) && !above(value, threshold) ==> !reading_next(l, value, threshold, exit, max_hold_secs, now).active,
        !above(value, threshold) && !above(exit, value) && !l.active ==> !reading_next(
            l,
            value,
            threshold,
            exit,
            max_hold_secs,
            now,
        ).active,
        !above(value, threshold) && !above(exit, value) && l.active ==> {
            let from = match l.band_since {
                Some(t) => t,
                None => now.steady_ns,
            };
            reading_next(l, value, threshold, exit, max_hold_secs, now).active <==> passed(from, now.steady_ns)
                < max_hold_secs * NS_PER_SEC
        },
{
}

/// A water mark that was reported for too long stays silent until memory is calm, and once it is
/// calm it can be reported again.
pub proof fn lemma_chronic_memory_is_silent(m: DetectorModel, r: Readings, f: Figures, now: Clock)
    requires
        signals_ok(m.signals),
        m.signals.mem_level.suppressed,
        !interrupted(m, now),
    ensures
        !observed(m, r, f, now).0.signals.mem_level.active,
        observed(m, r, f, now).0.signals.mem_level.suppressed == !mem_calm(m.config.lines, r),
{
}

/// More weighty causes or a longer duration never lower the severity.
pub proof fn lemma_severity_grows(count: int, more: int, short: int, long: int)
    requires
        count <= more,
        short <= long,
    ensures
        severity_rank(severity_of(count, short)) <= severity_rank(severity_of(more, long)),
{
}

/// Severities from the lightest.
pub open spec fn severity_rank(s: Severity) -> int {
    match s {
        Severity::Minor => 0,
        Severity::Major => 1,
        Severity::Critical => 2,
    }
}

/// The main cause of an event is one whose first sighting no other kind of the event precedes.
pub proof fn lemma_main_cause_came_first(causes: Seq<Seq<char>>, offsets: Seq<(CauseKind, i64)>, i: int)
    requires
        0 <= i < kinds_by_touch(causes, offsets).len(),
    ensures
        touch_key(offsets, kinds_by_touch(causes, offsets)[0]) <= touch_key(offsets, kinds_by_touch(causes, offsets)[i]),
{
    let kinds = each_once(kinds_of(causes));
    let keys = touch_keys(kinds, offsets);
    lemma_ascending(keys);
    let order = ascending(keys);
    if i > 0 {
        let x = order[0];
        let y = order[i];
        assert(keys[x] <= keys[y]);
    }
}

proof fn lemma_each_once(kinds: Seq<CauseKind>)
    ensures
        each_once(kinds).no_duplicates(),
        forall|k: CauseKind| #[trigger] each_once(kinds).contains(k) <==> kinds.contains(k),
    decreases kinds.len(),
{
    if kinds.len() > 0 {
        let front = each_once(kinds.drop_last());
        let r = each_once(kinds);
        lemma_each_once(kinds.drop_last());
        assert forall|k: CauseKind| #[trigger] r.contains(k) <==> kinds.contains(k) by {
            if front.contains(k) {
                let i = choose|i: int| 0 <= i < front.len() && front[i] == k;
                assert(r[i] == k);
                let j = choose|j: int| 0 <= j < kinds.drop_last().len() && kinds.drop_last()[j] == k;
                assert(kinds[j] == k);
            }
            if kinds.contains(k) {
                let j = choose|j: int| 0 <= j < kinds.len() && kinds[j] == k;
                if j < kinds.len() - 1 {
                    assert(kinds.drop_last()[j] == k);
                    assert(front.contains(k));
                } else if !front.contains(k) {
                    assert(r[front.len() as int] == k);
                }
            }
        }
        assert forall|i: int, j: int| 0 <= i < r.len() && 0 <= j < r.len() && i != j implies r[i] != r[j] by {
            if i == front.len() {
                assert(front.contains(front[j]));
            } else if j == front.len() {
                assert(front.contains(front[i]));
            }
        }
    }
}

proof fn lemma_kinds_of(causes: Seq<Seq<char>>, k: CauseKind)
    ensures
        kinds_of(causes).contains(k) <==> exists|i: int| 0 <= i < causes.len() && kind_of(#[trigger] causes[i]) == Some(k),
    decreases causes.len(),
{
    if causes.len() > 0 {
        let front = causes.drop_last();
        let before = kinds_of(front);
        let r = kinds_of(causes);
        lemma_kinds_of(front, k);
        if before.contains(k) {
            let j = choose|j: int| 0 <= j < before.len() && before[j] == k;
            assert(r[j] == k);
            let i = choose|i: int| 0 <= i < front.len() && kind_of(#[trigger] front[i]) == Some(k);
            assert(causes[i] == front[i]);
        }
        if kind_of(causes.last()) == Some(k) {
            assert(r[before.len() as int] == k);
            assert(causes[causes.len() - 1] == causes.last());
        }
        if r.contains(k) && !before.contains(k) {
            let j = choose|j: int| 0 <= j < r.len() && r[j] == k;
            assert(j == before.len());
        }
        if exists|i: int| 0 <= i < causes.len() && kind_of(#[trigger] causes[i]) == Some(k) {
            let i = choose|i: int| 0 <= i < causes.len() && kind_of(#[trigger] causes[i]) == Some(k);
            if i < causes.len() - 1 {
                assert(front[i] == causes[i]);
            }
        }
    }
}

/// The kinds of an event are exactly those of its causes, each once, the earliest first, and no
/// sighting lies before the beginning.
pub proof fn lemma_event_kinds(m: DetectorModel, sample: SampleModel, f: Figures, now: Clock, frozen: bool)
    requires
        tick(m, sample, f, now, frozen).1 is Some,
    ensures
        ({
            let e = tick(m, sample, f, now, frozen).1->0;
            &&& e.cause_kinds.no_duplicates()
            &&& forall|k: CauseKind| #[trigger]
                e.cause_kinds.contains(k) <==> exists|i: int|
                    0 <= i < e.causes.len() && kind_of(#[trigger] e.causes[i]) == Some(k)
            &&& forall|i: int, j: int|
                0 <= i < j < e.cause_kinds.len() ==> touch_key(e.cause_first_touch, #[trigger] e.cause_kinds[i])
                    <= touch_key(e.cause_first_touch, #[trigger] e.cause_kinds[j])
            &&& forall|i: int| 0 <= i < e.cause_first_touch.len() ==> (#[trigger] e.cause_first_touch[i]).1 >= 0
            &&& e.primary_cause == (if e.cause_kinds.len() > 0 {
                Some(e.cause_kinds[0])
            } else {
                None
            })
        }),
{
    let e = tick(m, sample, f, now, frozen).1->0;
    let all = kinds_of(e.causes);
    let kinds = each_once(all);
    let r = e.cause_kinds;
    lemma_each_once(all);
    let keys = touch_keys(kinds, e.cause_first_touch);
    lemma_ascending(keys);
    let order = ascending(keys);
    assert forall|k: CauseKind| #[trigger] r.contains(k) <==> exists|i: int|
        0 <= i < e.causes.len() && kind_of(#[trigger] e.causes[i]) == Some(k) by {
        lemma_kinds_of(e.causes, k);
        if r.contains(k) {
            let i = choose|i: int| 0 <= i < r.len() && r[i] == k;
            assert(kinds[order[i]] == k);
            assert(kinds.contains(k));
        }
        if kinds.contains(k) {
            let x = choose|x: int| 0 <= x < kinds.len() && kinds[x] == k;
            let at = lemma_position(order, kinds.len() as int, x);
            assert(r[at] == k);
        }
    }
    assert forall|i: int, j: int| 0 <= i < r.len() && 0 <= j < r.len() && i != j implies r[i] != r[j] by {
        assert(r[i] == kinds[order[i]] && r[j] == kinds[order[j]]);
        if i < j {
            assert(order[i] != order[j]);
        } else {
            assert(order[j] != order[i]);
        }
    }
    assert forall|i: int, j: int| 0 <= i < j < r.len() implies touch_key(e.cause_first_touch, #[trigger] r[i]) <= touch_key(
        e.cause_first_touch,
        #[trigger] r[j],
    ) by {
        let x = order[i];
        let y = order[j];
        assert(keys[x] <= keys[y]);
    }
    let seen = observed(m, sample.readings, f, now).0;
    let start = seen.stutter_start->0;
    assert forall|i: int| 0 <= i < e.cause_first_touch.len() implies (#[trigger] e.cause_first_touch[i]).1 >= 0 by {
        let t = seen.first_touch[i].1;
        assert(0 <= passed(start, t) / (NS_PER_MS as int) <= 0x7fff_ffff_ffff_ffff);
    }
}

/// The first sighting of a kind, zero where there is none.
pub open spec fn touch_key(offsets: Seq<(CauseKind, i64)>, k: CauseKind) -> int {
    match touch_of(offsets, k) {
        Some(t) => t as int,
        None => 0,
    }
}

} // verus!
