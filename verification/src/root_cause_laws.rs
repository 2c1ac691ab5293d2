//! What the judgement of an event's root cause stands on.

use crate::cause::{kind_name, touch_of, CauseKind, EventModel};
use crate::config::DetectionModel;
use crate::counting_laws::{amount, lemma_groups_count, lemma_reordered_keeps, lemma_runs_lose_nothing, lemma_sorting_texts, times};
use crate::detector::Figures;
use crate::grouping::{groups_of, lemma_groups_upto};
use crate::level::{above, at_most, Level};
use crate::order::{ascending, lemma_ascending, lemma_position};
use crate::root_cause::{
    all_pairs, baseline_at, chain_keys, chain_kinds, chained, clustered, confidence_label, confidence_of, confidence_points,
    culprit_names, deviates, direction_of, distinct_names, event_durations, kind_names, kinds_with_touch,
    lemma_chain_is_ordered, main_kind, multiple_of, pair_counts, pair_keys, pair_ranking, pairs_fit, pairs_upto, pairs_with,
    profile_at, profile_keys, profiles_fit, profiles_of, recount_core, recount_memory, recounted, rival_at, signature,
    signatures, strength_of, typical_of, Confidence, CoreFigures, ProcessBaseline, ProfileModel, Strength,
};
use crate::signal_laws::said;
use crate::text::{decimal, joined};
use crate::text_order::{lemma_distinct_sorted, lemma_text_order, sorted_texts, strictly_ascending, text_less};
use crate::types::{ProcessModel, Readings};
use vstd::prelude::*;

verus! {

/// The first sighting of a kind is the one noted first for it.
pub proof fn lemma_first_sighting_found(touches: Seq<(CauseKind, i64)>, k: CauseKind, i: int)
    requires
        0 <= i < touches.len(),
        touches[i].0 == k,
        forall|j: int| 0 <= j < i ==> (#[trigger] touches[j]).0 != k,
    ensures
        touch_of(touches, k) == Some(touches[i].1),
    decreases touches.len(),
{
    if i > 0 {
        assert(touches[0].0 != k);
        let rest = touches.skip(1);
        assert(rest[i - 1] == touches[i]);
        assert forall|j: int| 0 <= j < i - 1 implies (#[trigger] rest[j]).0 != k by {
            assert(rest[j] == touches[j + 1]);
        }
        lemma_first_sighting_found(rest, k, i - 1);
    }
}

/// A kind that is not noted has no first sighting.
pub proof fn lemma_unnoted_kind(touches: Seq<(CauseKind, i64)>, k: CauseKind)
    requires
        forall|j: int| 0 <= j < touches.len() ==> (#[trigger] touches[j]).0 != k,
    ensures
        touch_of(touches, k) is None,
    decreases touches.len(),
{
    if touches.len() > 0 {
        let rest = touches.skip(1);
        assert forall|j: int| 0 <= j < rest.len() implies (#[trigger] rest[j]).0 != k by {
            assert(rest[j] == touches[j + 1]);
        }
        lemma_unnoted_kind(rest, k);
    }
}

/// When a kind of an event was first sighted; the end of time where that was not noted.
pub open spec fn sighted_at(e: EventModel, k: CauseKind) -> i64 {
    match touch_of(e.cause_first_touch, k) {
        Some(t) => t,
        None => 0x7fff_ffff_ffff_ffff,
    }
}

/// The chain of an event holds each of its kinds with its first sighting, and stands in the order of the
/// sightings; kinds sighted together stand in the order of their names.
pub proof fn lemma_chain_tells_order(e: EventModel)
    ensures
        ({
            let c = chained(e);
            &&& c.len() == e.cause_kinds.len()
            &&& forall|i: int| 0 <= i < c.len() ==> (#[trigger] c[i]).1 == sighted_at(e, c[i].0) && e.cause_kinds.contains(c[i].0)
            &&& forall|k: CauseKind| e.cause_kinds.contains(k) ==> #[trigger] c.contains((k, sighted_at(e, k)))
            &&& forall|i: int, j: int|
                0 <= i < j < c.len() ==> (#[trigger] c[i]).1 < (#[trigger] c[j]).1 || c[i].1 == c[j].1 && !text_less(
                    kind_name(c[j].0),
                    kind_name(c[i].0),
                )
        }),
{
    let c = chained(e);
    let kinds = kinds_with_touch(e);
    lemma_reordered_keeps(kinds, chain_keys(kinds));
    assert forall|i: int| 0 <= i < c.len() implies (#[trigger] c[i]).1 == sighted_at(e, c[i].0) && e.cause_kinds.contains(
        c[i].0,
    ) by {
        assert(kinds.contains(c[i])) by {
            assert(c.contains(c[i]));
        }
        let x = choose|x: int| 0 <= x < kinds.len() && kinds[x] == c[i];
        assert(e.cause_kinds[x] == c[i].0);
    }
    assert forall|k: CauseKind| e.cause_kinds.contains(k) implies #[trigger] c.contains((k, sighted_at(e, k))) by {
        let x = choose|x: int| 0 <= x < e.cause_kinds.len() && e.cause_kinds[x] == k;
        assert(kinds[x] == (k, sighted_at(e, k)));
        assert(kinds.contains((k, sighted_at(e, k))));
    }
    assert forall|i: int, j: int| 0 <= i < j < c.len() implies (#[trigger] c[i]).1 < (#[trigger] c[j]).1 || c[i].1 == c[j].1
        && !text_less(kind_name(c[j].0), kind_name(c[i].0)) by {
        lemma_chain_is_ordered(e, i, j);
        crate::labels::lemma_name_ranks(c[j].0, c[i].0);
    }
}

/// The rival of a main cause is the first of the chain that is another kind.
pub proof fn lemma_rival_at(chain: Seq<(CauseKind, i64)>, main: CauseKind, i: int)
    requires
        0 <= i <= chain.len(),
    ensures
        i <= rival_at(chain, main, i) <= chain.len(),
        rival_at(chain, main, i) < chain.len() ==> chain[rival_at(chain, main, i)].0 != main,
        forall|j: int| i <= j < rival_at(chain, main, i) ==> (#[trigger] chain[j]).0 == main,
    decreases chain.len() - i,
{
    if i < chain.len() && chain[i].0 == main {
        lemma_rival_at(chain, main, i + 1);
    }
}

/// Another kind of an event than `main` was sighted before `t`.
pub open spec fn rival_before(e: EventModel, main: CauseKind, t: int) -> bool {
    exists|k: CauseKind| k != main && #[trigger] e.cause_kinds.contains(k) && sighted_at(e, k) < t
}

/// Another kind of an event than `main` was sighted.
pub open spec fn has_rival(e: EventModel, main: CauseKind) -> bool {
    rival_before(e, main, 0x7fff_ffff_ffff_ffff)
}

/// One kind alone is trusted most. Of several, the main one, or the earliest where none is noted, leads where every other was sighted at least a
/// second after it, or where it is one and a half times as strong; otherwise it does not stand out.
pub proof fn lemma_when_a_cause_leads(e: EventModel, ratio: Level)
    requires
        e.primary_cause is Some ==> touch_of(e.cause_first_touch, e.primary_cause->0) is Some,
    ensures
        ({
            let main = main_kind(e);
            let at = sighted_at(e, main);
            let c = confidence_of(e, ratio);
            let strong = at_most(Level::At(0x3ff8_0000_0000_0000), ratio);
            let ahead = has_rival(e, main) && !rival_before(e, main, at + 1000);
            &&& e.cause_kinds.len() <= 1 ==> c == Confidence::Single
            &&& e.cause_kinds.len() > 1 && (ahead || strong) ==> c == Confidence::Leading
            &&& e.cause_kinds.len() > 1 && !ahead && !strong ==> c == Confidence::Unclear
        }),
{
    let main = main_kind(e);
    let at = sighted_at(e, main);
    if e.cause_kinds.len() > 1 {
        let chain = chained(e);
        let i = rival_at(chain, main, 0);
        lemma_chain_tells_order(e);
        lemma_rival_at(chain, main, 0);
        if i < chain.len() {
            let k = chain[i].0;
            assert(e.cause_kinds.contains(k));
            assert forall|q: CauseKind| q != main && #[trigger] e.cause_kinds.contains(q) implies chain[i].1 <= sighted_at(e, q) by {
                assert(chain.contains((q, sighted_at(e, q))));
                let j = choose|j: int| 0 <= j < chain.len() && chain[j] == (q, sighted_at(e, q));
                if j > i {
                    assert(chain[i].1 <= chain[j].1);
                }
            }
            assert(sighted_at(e, k) == chain[i].1);
        } else {
            assert forall|q: CauseKind| q != main implies !#[trigger] e.cause_kinds.contains(q) by {
                if e.cause_kinds.contains(q) {
                    assert(chain.contains((q, sighted_at(e, q))));
                    let j = choose|j: int| 0 <= j < chain.len() && chain[j] == (q, sighted_at(e, q));
                    assert(chain[j].0 == main);
                }
            }
        }
    }
}

/// The strength of a cause is the reading that raises it; what no single reading raises is in the middle.
pub proof fn lemma_strength_is_the_reading(r: Readings)
    ensures
        strength_of(r, CauseKind::CpuHigh) == Strength::Percent(r.cpu_usage),
        strength_of(r, CauseKind::CpuSpike) == Strength::Percent(r.cpu_usage),
        strength_of(r, CauseKind::MemLow) == Strength::Percent(r.mem_usage_percent),
        strength_of(r, CauseKind::DiskBusy) == Strength::Percent(r.disk_busy_percent),
        strength_of(r, CauseKind::DpcInterrupt) == strength_of(r, CauseKind::InterruptStorm),
        match strength_of(r, CauseKind::DpcInterrupt) {
            Strength::Percent(l) => (l == r.dpc_percent || l == r.interrupt_percent) && !above(r.dpc_percent, l) && !above(
                r.interrupt_percent,
                l,
            ),
            Strength::Middle => false,
        },
        r.cpu_temp is Some ==> strength_of(r, CauseKind::ThermalThrottle) == Strength::Percent(r.cpu_temp->0),
        r.cpu_temp is None ==> strength_of(r, CauseKind::ThermalThrottle) == Strength::Middle,
        strength_of(r, CauseKind::NetSpike) == Strength::Middle,
        strength_of(r, CauseKind::UiFrozen) == Strength::Middle,
        strength_of(r, CauseKind::ContextSwitchStorm) == Strength::Middle,
        strength_of(r, CauseKind::ProcessHandleLeak) == Strength::Middle,
{
}

/// A recount of one sample names every reading that is over its line, whatever came before, and no
/// other. Context switches count by core and only under pressure, and a hot, loaded CPU whose clock was
/// read counts as throttled.
pub proof fn lemma_recount_names_what_is_over(cfg: DetectionModel, r: Readings, f: Figures, c: CoreFigures)
    ensures
        ({
            let lines = cfg.lines;
            let t = cfg.texts;
            let low = r.mem_available_mb < lines.mem_threshold_mb;
            let full = above(r.mem_usage_percent, lines.mem_threshold_percent);
            let busy = above(r.disk_busy_percent, lines.disk_busy_threshold_percent) || above(
                r.disk_avg_io_ms,
                lines.disk_io_threshold_ms,
            );
            let deferred = above(r.dpc_percent, lines.dpc_threshold_percent);
            let interrupted = above(r.interrupt_percent, lines.interrupt_threshold_percent);
            recounted(cfg, r, f, c) == said(
                above(r.cpu_usage, lines.cpu_threshold),
                "CPU usage "@ + f.cpu_text@ + "% > "@ + t.cpu_threshold + "%"@,
            ) + said(
                low,
                "Available memory "@ + decimal(r.mem_available_mb as nat) + "MB < "@ + decimal(lines.mem_threshold_mb as nat)
                    + "MB"@,
            ) + said(full, "Memory usage "@ + f.mem_text@ + "% > "@ + t.mem_threshold_percent + "%"@) + said(
                above(r.page_reads_per_sec, lines.page_reads_threshold) && (above(
                    f.commit_percent,
                    lines.commit_threshold_percent,
                ) || full || low || busy),
                "Memory paging "@ + f.page_reads_text@ + "/s > "@ + t.page_reads_threshold + "/s"@,
            ) + (said(busy, "Disk busy "@ + f.disk_busy_text@ + "% (IO "@ + f.disk_io_text@ + "ms)"@) + said(
                deferred,
                "DPC time "@ + f.dpc_text@ + "% > "@ + t.dpc_threshold_percent + "%"@,
            ) + said(
                interrupted,
                "Interrupt time "@ + f.interrupt_text@ + "% > "@ + t.interrupt_threshold_percent + "%"@,
            ) + said(
                above(c.ctx_per_core, lines.context_switch_threshold_per_core) && (at_most(
                    lines.evidence_cpu_percent,
                    r.cpu_usage,
                ) || deferred || interrupted),
                "Context switches "@ + f.ctx_switch_text@ + "/s = "@ + c.ctx_per_core_text@ + "/core > "@
                    + t.context_switch_threshold_per_core + "/core"@,
            )) + said(
                r.cpu_temp is Some && above(r.cpu_temp->0, lines.thermal_threshold_celsius) && r.cpu_freq_mhz is Some
                    && above(r.cpu_usage, Level::At(0x4049_0000_0000_0000)),
                "Thermal throttle: CPU "@ + f.thermal.temp_text@ + "°C, freq "@ + f.thermal.freq_text@ + "MHz"@,
            )
        }),
{
    let none = Seq::<Seq<char>>::empty();
    let cpu = said(
        above(r.cpu_usage, cfg.lines.cpu_threshold),
        "CPU usage "@ + f.cpu_text@ + "% > "@ + cfg.texts.cpu_threshold + "%"@,
    );
    let c1 = if above(r.cpu_usage, cfg.lines.cpu_threshold) {
        none.push("CPU usage "@ + f.cpu_text@ + "% > "@ + cfg.texts.cpu_threshold + "%"@)
    } else {
        none
    };
    assert(c1 =~= cpu);
    lemma_recount_memory(cfg, r, f, c1);
    lemma_recount_core(cfg, r, f, c, recount_memory(cfg, r, f, c1));
    let c2 = recount_core(cfg, r, f, c, recount_memory(cfg, r, f, c1));
    let hot = "Thermal throttle: CPU "@ + f.thermal.temp_text@ + "°C, freq "@ + f.thermal.freq_text@ + "MHz"@;
    assert(c2 + seq![hot] =~= c2.push(hot));
    assert(c2 + seq![] =~= c2);
}

proof fn lemma_recount_memory(cfg: DetectionModel, r: Readings, f: Figures, causes: Seq<Seq<char>>)
    ensures
        ({
            let lines = cfg.lines;
            let low = r.mem_available_mb < lines.mem_threshold_mb;
            let full = above(r.mem_usage_percent, lines.mem_threshold_percent);
            let busy = above(r.disk_busy_percent, lines.disk_busy_threshold_percent) || above(
                r.disk_avg_io_ms,
                lines.disk_io_threshold_ms,
            );
            recount_memory(cfg, r, f, causes) == causes + said(
                low,
                "Available memory "@ + decimal(r.mem_available_mb as nat) + "MB < "@ + decimal(lines.mem_threshold_mb as nat)
                    + "MB"@,
            ) + said(full, "Memory usage "@ + f.mem_text@ + "% > "@ + cfg.texts.mem_threshold_percent + "%"@) + said(
                above(r.page_reads_per_sec, lines.page_reads_threshold) && (above(
                    f.commit_percent,
                    lines.commit_threshold_percent,
                ) || full || low || busy),
                "Memory paging "@ + f.page_reads_text@ + "/s > "@ + cfg.texts.page_reads_threshold + "/s"@,
            )
        }),
{
    let lines = cfg.lines;
    let low = r.mem_available_mb < lines.mem_threshold_mb;
    let full = above(r.mem_usage_percent, lines.mem_threshold_percent);
    let a = "Available memory "@ + decimal(r.mem_available_mb as nat) + "MB < "@ + decimal(lines.mem_threshold_mb as nat)
        + "MB"@;
    let b = "Memory usage "@ + f.mem_text@ + "% > "@ + cfg.texts.mem_threshold_percent + "%"@;
    let c = "Memory paging "@ + f.page_reads_text@ + "/s > "@ + cfg.texts.page_reads_threshold + "/s"@;
    let paging = recount_memory(cfg, r, f, causes).len() > (causes + said(low, a) + said(full, b)).len();
    lemma_said(causes, low, a);
    lemma_said(causes + said(low, a), full, b);
    lemma_said(causes + said(low, a) + said(full, b), paging, c);
}

proof fn lemma_recount_core(cfg: DetectionModel, r: Readings, f: Figures, c: CoreFigures, causes: Seq<Seq<char>>)
    ensures
        ({
            let lines = cfg.lines;
            let t = cfg.texts;
            let busy = above(r.disk_busy_percent, lines.disk_busy_threshold_percent) || above(
                r.disk_avg_io_ms,
                lines.disk_io_threshold_ms,
            );
            let deferred = above(r.dpc_percent, lines.dpc_threshold_percent);
            let interrupted = above(r.interrupt_percent, lines.interrupt_threshold_percent);
            recount_core(cfg, r, f, c, causes) == causes + (said(
                busy,
                "Disk busy "@ + f.disk_busy_text@ + "% (IO "@ + f.disk_io_text@ + "ms)"@,
            ) + said(deferred, "DPC time "@ + f.dpc_text@ + "% > "@ + t.dpc_threshold_percent + "%"@) + said(
                interrupted,
                "Interrupt time "@ + f.interrupt_text@ + "% > "@ + t.interrupt_threshold_percent + "%"@,
            ) + said(
                above(c.ctx_per_core, lines.context_switch_threshold_per_core) && (at_most(
                    lines.evidence_cpu_percent,
                    r.cpu_usage,
                ) || deferred || interrupted),
                "Context switches "@ + f.ctx_switch_text@ + "/s = "@ + c.ctx_per_core_text@ + "/core > "@
                    + t.context_switch_threshold_per_core + "/core"@,
            ))
        }),
{
    let lines = cfg.lines;
    let t = cfg.texts;
    let busy = above(r.disk_busy_percent, lines.disk_busy_threshold_percent) || above(
        r.disk_avg_io_ms,
        lines.disk_io_threshold_ms,
    );
    let deferred = above(r.dpc_percent, lines.dpc_threshold_percent);
    let interrupted = above(r.interrupt_percent, lines.interrupt_threshold_percent);
    let switching = above(c.ctx_per_core, lines.context_switch_threshold_per_core) && (at_most(
        lines.evidence_cpu_percent,
        r.cpu_usage,
    ) || deferred || interrupted);
    let a = said(busy, "Disk busy "@ + f.disk_busy_text@ + "% (IO "@ + f.disk_io_text@ + "ms)"@);
    let b = said(deferred, "DPC time "@ + f.dpc_text@ + "% > "@ + t.dpc_threshold_percent + "%"@);
    let d = said(interrupted, "Interrupt time "@ + f.interrupt_text@ + "% > "@ + t.interrupt_threshold_percent + "%"@);
    let s = "Context switches "@ + f.ctx_switch_text@ + "/s = "@ + c.ctx_per_core_text@ + "/core > "@
        + t.context_switch_threshold_per_core + "/core"@;
    lemma_said(causes, busy, "Disk busy "@ + f.disk_busy_text@ + "% (IO "@ + f.disk_io_text@ + "ms)"@);
    lemma_said(causes + a, deferred, "DPC time "@ + f.dpc_text@ + "% > "@ + t.dpc_threshold_percent + "%"@);
    lemma_said(
        causes + a + b,
        interrupted,
        "Interrupt time "@ + f.interrupt_text@ + "% > "@ + t.interrupt_threshold_percent + "%"@,
    );
    lemma_said(causes + a + b + d, switching, s);
    assert(causes + a + b + d + said(switching, s) =~= causes + (a + b + d + said(switching, s)));
}

proof fn lemma_said(front: Seq<Seq<char>>, condition: bool, text: Seq<char>)
    ensures
        front + said(condition, text) == (if condition {
            front.push(text)
        } else {
            front
        }),
{
    assert(front + said(condition, text) =~= if condition {
        front.push(text)
    } else {
        front
    });
}

/// Without a noted main cause, the earliest kind of the chain stands for it.
pub proof fn lemma_main_cause(e: EventModel)
    requires
        e.cause_kinds.len() > 0,
    ensures
        e.primary_cause is Some ==> main_kind(e) == e.primary_cause->0,
        e.primary_cause is None ==> forall|k: CauseKind| #[trigger]
            e.cause_kinds.contains(k) ==> sighted_at(e, main_kind(e)) <= sighted_at(e, k),
{
    let c = chained(e);
    lemma_chain_tells_order(e);
    if e.primary_cause is None {
        assert forall|k: CauseKind| #[trigger] e.cause_kinds.contains(k) implies sighted_at(e, main_kind(e)) <= sighted_at(e, k) by {
            assert(c.contains((k, sighted_at(e, k))));
            let j = choose|j: int| 0 <= j < c.len() && c[j] == (k, sighted_at(e, k));
            assert(c[0].1 == sighted_at(e, c[0].0));
            if j > 0 {
                assert(c[0].1 <= c[j].1);
            }
        }
    }
}

/// The signature of an event ends with the class of its duration: under a second, up to five seconds, or
/// longer. In front of it stand the names of its kinds and of its culprits, each in ascending order.
pub proof fn lemma_signature_tells(e: EventModel) -> (parts: (Seq<Seq<char>>, Seq<Seq<char>>))
    requires
        e.cause_kinds.len() <= u64::MAX,
        e.culprits.len() <= u64::MAX,
    ensures
        ({
            let (kinds, names) = parts;
            let class = if e.duration_ms < 1000 {
                "短"@
            } else if e.duration_ms <= 5000 {
                "中"@
            } else {
                "长"@
            };
            &&& signature(e) == joined(kinds, "|"@) + "|"@ + joined(names, "|"@) + "|"@ + class
            &&& kinds.len() == e.cause_kinds.len() && names.len() == e.culprits.len()
            &&& forall|i: int, j: int| 0 <= i < j < kinds.len() ==> !text_less(#[trigger] kinds[j], #[trigger] kinds[i])
            &&& forall|i: int, j: int| 0 <= i < j < names.len() ==> !text_less(#[trigger] names[j], #[trigger] names[i])
            &&& forall|i: int| 0 <= i < e.cause_kinds.len() ==> kinds.contains(kind_name(#[trigger] e.cause_kinds[i]))
            &&& forall|i: int| 0 <= i < e.culprits.len() ==> names.contains((#[trigger] e.culprits[i]).name)
        }),
{
    let ks = kind_names(e.cause_kinds);
    let ns = culprit_names(e);
    lemma_sorting_texts(ks);
    lemma_sorting_texts(ns);
    assert forall|i: int| 0 <= i < e.cause_kinds.len() implies sorted_texts(ks).contains(kind_name(#[trigger] e.cause_kinds[i])) by {
        assert(ks[i] == kind_name(e.cause_kinds[i]));
        assert(ks.contains(ks[i]));
    }
    assert forall|i: int| 0 <= i < e.culprits.len() implies sorted_texts(ns).contains((#[trigger] e.culprits[i]).name) by {
        assert(ns[i] == e.culprits[i].name);
        assert(ns.contains(ns[i]));
    }
    (sorted_texts(ks), sorted_texts(ns))
}

/// Every profile counts the events of its signature and sums their durations; each signature has one
/// profile, and the most frequent comes first.
pub proof fn lemma_profiles_count_events(events: Seq<EventModel>)
    requires
        profiles_fit(events),
    ensures
        ({
            let r = clustered(events);
            let n = events.len() as int;
            &&& forall|i: int|
                0 <= i < r.len() ==> {
                    let p = #[trigger] r[i];
                    &&& p.count == times(signatures(events), p.signature, n)
                    &&& p.total_duration_ms == amount(signatures(events), event_durations(events), p.signature, n)
                    &&& p.count > 0
                }
            &&& forall|i: int, j: int| 0 <= i < j < r.len() ==> (#[trigger] r[i]).count >= (#[trigger] r[j]).count
            &&& forall|i: int, j: int| 0 <= i < j < r.len() ==> (#[trigger] r[i]).signature != (#[trigger] r[j]).signature
            &&& forall|x: int|
                0 <= x < n ==> exists|i: int| 0 <= i < r.len() && (#[trigger] r[i]).signature == signature(#[trigger] events[x])
        }),
{
    let n = events.len() as int;
    let sigs = signatures(events);
    let values = event_durations(events);
    let groups = groups_of(sigs);
    let all = profiles_of(events);
    let keys = profile_keys(all);
    let order = ascending(keys);
    let r = clustered(events);
    lemma_groups_count(sigs, values, n);
    lemma_groups_upto(sigs, n);
    lemma_ascending(keys);
    lemma_reordered_keeps(all, keys);
    assert forall|x: int| 0 <= x < all.len() implies {
        let p = #[trigger] all[x];
        &&& p.count == times(sigs, p.signature, n)
        &&& p.total_duration_ms == amount(sigs, values, p.signature, n)
        &&& p.count > 0
    } by {
        let g = groups[x];
        assert(crate::grouping::group_fits(values, g));
        assert(g.len() >= 1);
        lemma_amount_is_sum(sigs, values, sigs[g[0]], n);
    }
    assert forall|i: int| 0 <= i < r.len() implies {
        let p = #[trigger] r[i];
        &&& p.count == times(sigs, p.signature, n)
        &&& p.total_duration_ms == amount(sigs, values, p.signature, n)
        &&& p.count > 0
    } by {
        assert(r[i] == all[order[i]]);
    }
    assert forall|i: int, j: int| 0 <= i < j < r.len() implies (#[trigger] r[i]).count >= (#[trigger] r[j]).count by {
        assert(keys[order[i]] <= keys[order[j]]);
    }
    assert forall|i: int, j: int| 0 <= i < j < r.len() implies (#[trigger] r[i]).signature != (#[trigger] r[j]).signature by {
        let x = order[i];
        let y = order[j];
        if x < y {
            assert(sigs[groups[x][0]] != sigs[groups[y][0]]);
        } else {
            assert(sigs[groups[y][0]] != sigs[groups[x][0]]);
        }
    }
    assert forall|x: int| 0 <= x < n implies exists|i: int|
        0 <= i < r.len() && (#[trigger] r[i]).signature == signature(#[trigger] events[x]) by {
        assert(crate::grouping::is_member(groups, x));
        let g = choose|g: int| 0 <= g < groups.len() && (#[trigger] groups[g]).contains(x);
        let a = choose|a: int| 0 <= a < groups[g].len() && groups[g][a] == x;
        assert(sigs[groups[g][a]] == sigs[groups[g][0]]);
        let i = lemma_position(order, all.len() as int, g);
        assert(r[i] == all[g]);
        assert(sigs[x] == signature(events[x]));
    }
}

proof fn lemma_amount_is_sum<K>(keys: Seq<K>, values: Seq<u64>, k: K, n: int)
    ensures
        amount(keys, values, k, n) >= 0,
    decreases n,
{
    if n > 0 {
        lemma_amount_is_sum(keys, values, k, n - 1);
    }
}

/// An event fits a profile only where that has its signature and was seen twice or more; it fits the first
/// such one, and where there is one it fits.
pub proof fn lemma_profile_fits(profiles: Seq<ProfileModel>, sig: Seq<char>, i: int)
    requires
        0 <= i <= profiles.len(),
    ensures
        ({
            let at = profile_at(profiles, sig, i);
            &&& i <= at <= profiles.len()
            &&& at < profiles.len() ==> profiles[at].signature == sig && profiles[at].count >= 2
            &&& forall|j: int| i <= j < at ==> (#[trigger] profiles[j]).signature != sig || profiles[j].count < 2
        }),
    decreases profiles.len() - i,
{
    if i < profiles.len() && !(profiles[i].count >= 2 && profiles[i].signature == sig) {
        lemma_profile_fits(profiles, sig, i + 1);
    }
}

/// Both names are among the culprits of an event.
pub open spec fn both_culprits(e: EventModel, a: Seq<char>, b: Seq<char>) -> bool {
    named(e, a) && named(e, b)
}

/// A culprit of an event has this name.
pub open spec fn named(e: EventModel, a: Seq<char>) -> bool {
    exists|i: int| 0 <= i < e.culprits.len() && (#[trigger] e.culprits[i]).name == a
}

/// In how many of the first `n` events two processes were culprits together.
pub open spec fn together(events: Seq<EventModel>, a: Seq<char>, b: Seq<char>, n: int) -> int
    decreases n,
{
    if n <= 0 {
        0
    } else {
        together(events, a, b, n - 1) + if both_culprits(events[n - 1], a, b) {
            1int
        } else {
            0
        }
    }
}

proof fn lemma_times_joined<K>(a: Seq<K>, b: Seq<K>, k: K)
    ensures
        times(a + b, k, (a + b).len() as int) == times(a, k, a.len() as int) + times(b, k, b.len() as int),
    decreases b.len(),
{
    if b.len() == 0 {
        assert(a + b =~= a);
    } else {
        let front = b.drop_last();
        lemma_times_joined(a, front, k);
        assert((a + b).drop_last() =~= a + front);
        lemma_times_same(a + b, a + front, k, (a + front).len() as int);
        lemma_times_same(b, front, k, front.len() as int);
    }
}

proof fn lemma_times_same<K>(a: Seq<K>, b: Seq<K>, k: K, n: int)
    requires
        0 <= n <= a.len(),
        n <= b.len(),
        forall|i: int| 0 <= i < n ==> a[i] == b[i],
    ensures
        times(a, k, n) == times(b, k, n),
    decreases n,
{
    if n > 0 {
        lemma_times_same(a, b, k, n - 1);
    }
}

proof fn lemma_times_none<K>(a: Seq<K>, k: K, n: int)
    requires
        0 <= n <= a.len(),
        forall|i: int| 0 <= i < n ==> #[trigger] a[i] != k,
    ensures
        times(a, k, n) == 0,
    decreases n,
{
    if n > 0 {
        lemma_times_none(a, k, n - 1);
    }
}

/// Among names that ascend, a pair is formed with the name at `i` once where its second name stands
/// between `i` and `n`.
proof fn lemma_pairs_with(names: Seq<Seq<char>>, i: int, n: int, a: Seq<char>, b: Seq<char>)
    requires
        strictly_ascending(names),
        0 <= i < names.len(),
        n <= names.len(),
    ensures
        times(pairs_with(names, i, n), (a, b), pairs_with(names, i, n).len() as int) == (if names[i] == a && (exists|j: int|
            i < j < n && #[trigger] names[j] == b) {
            1int
        } else {
            0
        }),
    decreases n - i,
{
    if n > i + 1 {
        let front = pairs_with(names, i, n - 1);
        let whole = pairs_with(names, i, n);
        lemma_pairs_with(names, i, n - 1, a, b);
        lemma_times_same(whole, front, (a, b), front.len() as int);
        if names[n - 1] == b {
            assert forall|j: int| i < j < n - 1 implies #[trigger] names[j] != b by {
                assert(text_less(names[j], names[n - 1]));
                lemma_text_order(names[j], names[j], names[j]);
            }
        }
        if exists|j: int| i < j < n && #[trigger] names[j] == b {
            let j = choose|j: int| i < j < n && #[trigger] names[j] == b;
            if j < n - 1 {
                assert(names[j] == b);
            }
        }
    }
}

proof fn lemma_pairs_upto(names: Seq<Seq<char>>, n: int, a: Seq<char>, b: Seq<char>)
    requires
        strictly_ascending(names),
        0 <= n <= names.len(),
    ensures
        times(pairs_upto(names, n), (a, b), pairs_upto(names, n).len() as int) == (if exists|i: int, j: int|
            0 <= i < n && i < j < names.len() && #[trigger] names[i] == a && #[trigger] names[j] == b {
            1int
        } else {
            0
        }),
    decreases n,
{
    if n > 0 {
        let i0 = n - 1;
        lemma_pairs_upto(names, n - 1, a, b);
        lemma_pairs_with(names, i0, names.len() as int, a, b);
        lemma_times_joined(pairs_upto(names, n - 1), pairs_with(names, i0, names.len() as int), (a, b));
        let before = exists|i: int, j: int|
            0 <= i < n - 1 && i < j < names.len() && #[trigger] names[i] == a && #[trigger] names[j] == b;
        let here = names[i0] == a && (exists|j: int| i0 < j < names.len() && #[trigger] names[j] == b);
        let after = exists|i: int, j: int|
            0 <= i < n && i < j < names.len() && #[trigger] names[i] == a && #[trigger] names[j] == b;
        if before {
            let (i, j) = choose|i: int, j: int|
                0 <= i < n - 1 && i < j < names.len() && #[trigger] names[i] == a && #[trigger] names[j] == b;
            assert(text_less(names[i], names[i0]));
            lemma_text_order(a, a, a);
            assert(names[i] == a && names[j] == b);
            assert(after);
        }
        if here {
            let j = choose|j: int| i0 < j < names.len() && #[trigger] names[j] == b;
            assert(names[i0] == a && names[j] == b);
            assert(after);
        }
        if after {
            let (i, j) = choose|i: int, j: int|
                0 <= i < n && i < j < names.len() && #[trigger] names[i] == a && #[trigger] names[j] == b;
            if i < n - 1 {
                assert(names[i] == a && names[j] == b);
                assert(before);
            } else {
                assert(names[j] == b);
                assert(here);
            }
        }
        assert(!(before && here));
    }
}

proof fn lemma_pair_in_event(e: EventModel, a: Seq<char>, b: Seq<char>)
    requires
        e.culprits.len() <= u64::MAX,
        text_less(a, b),
    ensures
        ({
            let names = distinct_names(e);
            let pairs = pairs_upto(names, names.len() as int);
            times(pairs, (a, b), pairs.len() as int) == (if both_culprits(e, a, b) {
                1int
            } else {
                0
            })
        }),
{
    let ns = culprit_names(e);
    let names = distinct_names(e);
    lemma_distinct_sorted(ns);
    lemma_pairs_upto(names, names.len() as int, a, b);
    lemma_named(e, a);
    lemma_named(e, b);
    if names.contains(a) && names.contains(b) {
        let i = choose|i: int| 0 <= i < names.len() && names[i] == a;
        let j = choose|j: int| 0 <= j < names.len() && names[j] == b;
        lemma_text_order(a, b, a);
        if j < i {
            assert(text_less(names[j], names[i]));
        }
        assert(names[i] == a && names[j] == b);
    }
    if exists|i: int, j: int|
        0 <= i < names.len() && i < j < names.len() && #[trigger] names[i] == a && #[trigger] names[j] == b {
        let (i, j) = choose|i: int, j: int|
            0 <= i < names.len() && i < j < names.len() && #[trigger] names[i] == a && #[trigger] names[j] == b;
        assert(names.contains(names[i]) && names.contains(names[j]));
    }
}

proof fn lemma_named(e: EventModel, a: Seq<char>)
    requires
        e.culprits.len() <= u64::MAX,
    ensures
        named(e, a) <==> distinct_names(e).contains(a),
{
    let ns = culprit_names(e);
    lemma_sorting_texts(ns);
    lemma_runs_lose_nothing(sorted_texts(ns), a);
    if named(e, a) {
        let i = choose|i: int| 0 <= i < e.culprits.len() && (#[trigger] e.culprits[i]).name == a;
        assert(ns[i] == a);
    }
    if ns.contains(a) {
        let i = choose|i: int| 0 <= i < ns.len() && ns[i] == a;
        assert(e.culprits[i].name == a);
    }
    assert(sorted_texts(ns).contains(a) <==> ns.contains(a));
}

proof fn lemma_pairs_together(events: Seq<EventModel>, n: int, a: Seq<char>, b: Seq<char>)
    requires
        0 <= n <= events.len(),
        text_less(a, b),
        forall|i: int| 0 <= i < events.len() ==> (#[trigger] events[i]).culprits.len() <= u64::MAX,
    ensures
        times(all_pairs(events, n), (a, b), all_pairs(events, n).len() as int) == together(events, a, b, n),
    decreases n,
{
    if n > 0 {
        let names = distinct_names(events[n - 1]);
        lemma_pairs_together(events, n - 1, a, b);
        lemma_pair_in_event(events[n - 1], a, b);
        lemma_times_joined(all_pairs(events, n - 1), pairs_upto(names, names.len() as int), (a, b));
    }
}

/// A pair of processes counts the events in which both were culprits; the names of a pair ascend, and every
/// two names that were culprits together make a pair.
pub proof fn lemma_pairs_count_events(events: Seq<EventModel>)
    requires
        pairs_fit(all_pairs(events, events.len() as int)),
        forall|i: int| 0 <= i < events.len() ==> (#[trigger] events[i]).culprits.len() <= u64::MAX,
    ensures
        ({
            let n = events.len() as int;
            let r = pair_ranking(all_pairs(events, n));
            &&& forall|i: int|
                0 <= i < r.len() ==> {
                    let p = #[trigger] r[i];
                    &&& text_less(p.pair.0, p.pair.1)
                    &&& p.count == together(events, p.pair.0, p.pair.1, n)
                    &&& p.count > 0
                }
            &&& forall|a: Seq<char>, b: Seq<char>|
                text_less(a, b) && #[trigger] together(events, a, b, n) > 0 ==> exists|i: int|
                    0 <= i < r.len() && (#[trigger] r[i]).pair == (a, b)
        }),
{
    let n = events.len() as int;
    let pairs = all_pairs(events, n);
    let m = pairs.len() as int;
    let groups = groups_of(pairs);
    let all = pair_counts(pairs);
    let keys = pair_keys(all);
    let order = ascending(keys);
    let r = pair_ranking(pairs);
    let zeros = Seq::new(pairs.len(), |i: int| 0u64);
    lemma_groups_count(pairs, zeros, m);
    lemma_groups_upto(pairs, m);
    lemma_ascending(keys);
    crate::root_cause::lemma_pairs_stand_in_order(events, n);
    assert forall|i: int| 0 <= i < r.len() implies {
        let p = #[trigger] r[i];
        &&& text_less(p.pair.0, p.pair.1)
        &&& p.count == together(events, p.pair.0, p.pair.1, n)
        &&& p.count > 0
    } by {
        let x = order[i];
        let g = groups[x];
        assert(r[i] == all[x]);
        assert(g.len() >= 1 && 0 <= g[0] < m);
        assert(g.len() <= u32::MAX);
        assert(text_less(pairs[g[0]].0, pairs[g[0]].1));
        lemma_pairs_together(events, n, pairs[g[0]].0, pairs[g[0]].1);
    }
    assert forall|a: Seq<char>, b: Seq<char>| text_less(a, b) && #[trigger] together(events, a, b, n) > 0 implies exists|i: int|
        0 <= i < r.len() && (#[trigger] r[i]).pair == (a, b) by {
        lemma_pairs_together(events, n, a, b);
        assert(times(pairs, (a, b), m) > 0);
        assert(exists|x: int| 0 <= x < groups.len() && pairs[(#[trigger] groups[x])[0]] == (a, b));
        let x = choose|x: int| 0 <= x < groups.len() && pairs[(#[trigger] groups[x])[0]] == (a, b);
        let i = lemma_position(order, all.len() as int, x);
        assert(r[i] == all[x]);
        assert(r[i].pair == (a, b));
    }
}

/// A culprit deviates from the first baseline with its name: its multiple is the quotient where the typical
/// use is over zero, else its own use, and it counts with three appearances or more and over one and a half.
/// Without a baseline nothing deviates.
pub proof fn lemma_deviations_go_by_name(baselines: Seq<ProcessBaseline>, p: ProcessModel, quotient: Level, i: int)
    requires
        0 <= i <= baselines.len(),
        i < baselines.len() ==> baselines[i].name@ == p.name,
        forall|j: int| 0 <= j < i ==> (#[trigger] baselines[j]).name@ != p.name,
    ensures
        ({
            let m = multiple_of(baselines, p, quotient);
            let b = baselines[i];
            &&& i == baselines.len() ==> m == Level::At(0) && !deviates(baselines, p, m) && typical_of(baselines, p.name) is None
            &&& i < baselines.len() ==> {
                &&& typical_of(baselines, p.name) == Some(b.typical_cpu)
                &&& m == (if above(b.typical_cpu, Level::At(0)) {
                    quotient
                } else {
                    p.cpu_usage
                })
                &&& deviates(baselines, p, m) <==> b.appearances >= 3 && above(m, Level::At(0x3ff8_0000_0000_0000))
            }
        }),
{
    lemma_baseline_at(baselines, p.name, 0, i);
}

proof fn lemma_baseline_at(baselines: Seq<ProcessBaseline>, name: Seq<char>, from: int, i: int)
    requires
        0 <= from <= i <= baselines.len(),
        i < baselines.len() ==> baselines[i].name@ == name,
        forall|j: int| from <= j < i ==> (#[trigger] baselines[j]).name@ != name,
    ensures
        baseline_at(baselines, name, from) == i,
    decreases i - from,
{
    if from < i {
        assert(baselines[from].name@ != name);
        lemma_baseline_at(baselines, name, from + 1, i);
    }
}

/// The kinds of a chain stand in its order.
pub proof fn lemma_kinds_of_chains(c: Seq<(CauseKind, i64)>)
    ensures
        chain_kinds(c).len() == c.len(),
        forall|i: int| 0 <= i < c.len() ==> #[trigger] chain_kinds(c)[i] == c[i].0,
{
}

/// What set an event off was sighted no later than any other of its kinds; the rest, in their order, made it
/// worse. Without kinds there is neither.
pub proof fn lemma_what_set_an_event_off(e: EventModel)
    ensures
        ({
            let (trigger, amplifiers) = direction_of(e);
            &&& e.cause_kinds.len() == 0 ==> trigger is None && amplifiers.len() == 0
            &&& e.cause_kinds.len() > 0 ==> {
                &&& trigger is Some && e.cause_kinds.contains(trigger->0)
                &&& forall|k: CauseKind| #[trigger]
                    e.cause_kinds.contains(k) ==> sighted_at(e, trigger->0) <= sighted_at(e, k)
                &&& amplifiers.len() == e.cause_kinds.len() - 1
                &&& forall|i: int, j: int|
                    0 <= i < j < amplifiers.len() ==> sighted_at(e, #[trigger] amplifiers[i]) <= sighted_at(
                        e,
                        #[trigger] amplifiers[j],
                    )
                &&& forall|k: CauseKind| #[trigger]
                    e.cause_kinds.contains(k) && k != trigger->0 ==> amplifiers.contains(k)
            }
        }),
{
    let c = chained(e);
    let (trigger, amplifiers) = direction_of(e);
    lemma_chain_tells_order(e);
    if e.cause_kinds.len() > 0 {
        assert(trigger == Some(c[0].0));
        assert forall|k: CauseKind| #[trigger] e.cause_kinds.contains(k) implies sighted_at(e, trigger->0) <= sighted_at(e, k) && (k
            != trigger->0 ==> amplifiers.contains(k)) by {
            assert(c.contains((k, sighted_at(e, k))));
            let j = choose|j: int| 0 <= j < c.len() && c[j] == (k, sighted_at(e, k));
            assert(c[0].1 == sighted_at(e, c[0].0));
            if j > 0 {
                assert(c[0].1 <= c[j].1);
                assert(amplifiers[j - 1] == k);
            }
        }
        assert forall|i: int, j: int| 0 <= i < j < amplifiers.len() implies sighted_at(e, #[trigger] amplifiers[i]) <= sighted_at(
            e,
            #[trigger] amplifiers[j],
        ) by {
            assert(amplifiers[i] == c[i + 1].0 && amplifiers[j] == c[j + 1].0);
            assert(c[i + 1].1 <= c[j + 1].1);
        }
    }
}

/// One cause alone is trusted most, a leading one less, and one that does not stand out least; each is shown in
/// its own words.
pub proof fn lemma_confidences()
    ensures
        confidence_points(Confidence::Single) == 90 && confidence_label(Confidence::Single) == "高"@,
        confidence_points(Confidence::Leading) == 70 && confidence_label(Confidence::Leading) == "较高"@,
        confidence_points(Confidence::Unclear) == 35 && confidence_label(Confidence::Unclear) == "主因不显著，疑多因并发"@,
{
}

} // verus!
