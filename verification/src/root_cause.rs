//! From an event to its root cause: direction, chain, confidence, recounts and profiles.

use crate::analytics::{event_models, CulpritGroup};
use crate::binary64::{mean_seconds, mean_seconds_text};
use crate::cause::{first_touch, kind_name, touch_of, CauseKind, EventModel, StutterEvent};
use crate::config::{DetectionConfig, DetectionModel, Lines};
use crate::detector::{
    disk_over, hard_causes, hard_next, mem_available_under, mem_usage_over, paging_counts, quiet, Clock, Figures,
    THERMAL_LOAD_MIN_USAGE,
};
use crate::grouping::{
    group_fits, group_ok, group_pairs, group_sum, group_texts, groups_fit, groups_of, groups_ok, members, pair_texts, sum_group,
};
use crate::labels::{kind_rank, name_rank};
use crate::level::{above, at_most, higher, Level};
use crate::order::{ascending, ascending_order, lemma_ascending, positions, reordered};
use crate::text::{decimal, decimal_text, join, joined, push_text, texts};
use crate::text_order::{
    drop_runs, lemma_distinct_sorted, sort_texts, sorted_texts, strictly_ascending, text_less, without_runs,
};
use crate::types::Readings;
use vstd::prelude::*;

verus! {

/// By how much the first cause must precede the second to lead clearly, in milliseconds.
pub const LEADING_GAP_MS: i64 = 1000;

/// The rank of one and a half: how many times stronger than the second a leading cause is, and how
/// far over its typical use a process deviates.
pub const ONE_AND_A_HALF: i64 = 0x3ff8_0000_0000_0000;

/// How often a process must have been a culprit for its typical use to mean something.
pub const MIN_BASELINE_APPEARANCES: u32 = 3;

/// The kinds of an event with their first sightings; one that was not noted counts as the latest.
pub open spec fn kinds_with_touch(e: EventModel) -> Seq<(CauseKind, i64)> {
    Seq::new(
        e.cause_kinds.len(),
        |i: int|
            (
                e.cause_kinds[i],
                match touch_of(e.cause_first_touch, e.cause_kinds[i]) {
                    Some(t) => t,
                    None => i64::MAX,
                },
            ),
    )
}

/// The keys of a chain of kinds: by first sighting, then by name.
pub open spec fn chain_keys(kinds: Seq<(CauseKind, i64)>) -> Seq<i128> {
    Seq::new(kinds.len(), |i: int| (kinds[i].1 as int * 32 + name_rank(kinds[i].0)) as i128)
}

/// The kinds of an event by first sighting, then by name.
pub open spec fn chained(e: EventModel) -> Seq<(CauseKind, i64)> {
    let kinds = kinds_with_touch(e);
    reordered(kinds, ascending(chain_keys(kinds)))
}

/// The kinds of an event by first sighting, then by name.
pub fn sorted_causes_by_first_touch(event: &StutterEvent) -> (r: Vec<(CauseKind, i64)>)
    ensures
        r@ == chained(event@),
{
    let ghost all = kinds_with_touch(event@);
    let mut kinds: Vec<(CauseKind, i64)> = Vec::new();
    let mut keys: Vec<i128> = Vec::new();
    let mut i: usize = 0;
    while i < event.cause_kinds.len()
        invariant
            i <= event.cause_kinds@.len(),
            all == kinds_with_touch(event@),
            kinds@ == all.take(i as int),
            keys@ == chain_keys(all).take(i as int),
        decreases event.cause_kinds@.len() - i,
    {
        let k = event.cause_kinds[i];
        let t: i64 = match first_touch(&event.cause_first_touch, k) {
            Some(t) => t,
            None => i64::MAX,
        };
        kinds.push((k, t));
        keys.push(t as i128 * 32 + kind_rank(k) as i128);
        i += 1;
        proof {
            assert(kinds@ =~= all.take(i as int));
            assert(keys@ =~= chain_keys(all).take(i as int));
        }
    }
    proof {
        assert(kinds@ =~= all);
        assert(keys@ =~= chain_keys(all));
    }
    let order = ascending_order(&keys);
    let ghost whole = reordered(all, positions(order@));
    let mut r: Vec<(CauseKind, i64)> = Vec::new();
    let mut j: usize = 0;
    while j < order.len()
        invariant
            j <= order@.len(),
            forall|i: int| 0 <= i < order@.len() ==> #[trigger] order@[i] < kinds@.len(),
            kinds@ == all,
            whole == reordered(all, positions(order@)),
            r@ == whole.take(j as int),
        decreases order@.len() - j,
    {
        r.push(kinds[order[j]]);
        j += 1;
        proof {
            assert(r@ =~= whole.take(j as int));
        }
    }
    proof {
        assert(r@ =~= whole);
    }
    r
}

/// The kinds of a chain.
pub open spec fn chain_kinds(chain: Seq<(CauseKind, i64)>) -> Seq<CauseKind> {
    Seq::new(chain.len(), |i: int| chain[i].0)
}

/// The causes of an event as a chain, from the root to what was seen last.
pub fn cause_chain(event: &StutterEvent) -> (r: Vec<CauseKind>)
    ensures
        r@ == chain_kinds(chained(event@)),
{
    let sorted = sorted_causes_by_first_touch(event);
    let mut r: Vec<CauseKind> = Vec::new();
    let mut i: usize = 0;
    while i < sorted.len()
        invariant
            i <= sorted@.len(),
            r@ == chain_kinds(sorted@).take(i as int),
        decreases sorted@.len() - i,
    {
        r.push(sorted[i].0);
        i += 1;
        proof {
            assert(r@ =~= chain_kinds(sorted@).take(i as int));
        }
    }
    proof {
        assert(r@ =~= chain_kinds(sorted@));
    }
    r
}

/// What set an event off, and what made it worse, in order.
pub open spec fn direction_of(e: EventModel) -> (Option<CauseKind>, Seq<CauseKind>) {
    let chain = chain_kinds(chained(e));
    if chain.len() == 0 {
        (None, seq![])
    } else {
        (Some(chain[0]), chain.skip(1))
    }
}

/// What set an event off, and what made it worse, in order.
pub fn causal_direction(event: &StutterEvent) -> (r: (Option<CauseKind>, Vec<CauseKind>))
    ensures
        ({
            let chain = chain_kinds(chained(event@));
            if chain.len() == 0 {
                r.0 is None && r.1@.len() == 0
            } else {
                r.0 == Some(chain[0]) && r.1@ == chain.skip(1)
            }
        }),
        (r.0, r.1@) == direction_of(event@),
{
    let chain = cause_chain(event);
    let mut rest: Vec<CauseKind> = Vec::new();
    if chain.len() == 0 {
        proof {
            assert(rest@ =~= seq![]);
        }
        return (None, rest);
    }
    let mut i: usize = 1;
    while i < chain.len()
        invariant
            1 <= i <= chain@.len(),
            rest@ == chain@.subrange(1, i as int),
        decreases chain@.len() - i,
    {
        rest.push(chain[i]);
        i += 1;
        proof {
            assert(rest@ =~= chain@.subrange(1, i as int));
        }
    }
    proof {
        assert(rest@ =~= chain@.skip(1));
    }
    (Some(chain[0]), rest)
}

/// How strong a cause was: a percentage of the snapshot, or in the middle where nothing measures it.
#[derive(Clone, Copy, Debug, PartialEq, Eq, Structural)]
pub enum Strength {
    Percent(Level),
    Middle,
}

/// The strength of a kind in a sample.
pub open spec fn strength_of(r: Readings, kind: CauseKind) -> Strength {
    match kind {
        CauseKind::CpuHigh | CauseKind::CpuSpike => Strength::Percent(r.cpu_usage),
        CauseKind::MemLow => Strength::Percent(r.mem_usage_percent),
        CauseKind::DiskBusy => Strength::Percent(r.disk_busy_percent),
        CauseKind::DpcInterrupt | CauseKind::InterruptStorm => Strength::Percent(
            higher(r.dpc_percent, r.interrupt_percent),
        ),
        CauseKind::ThermalThrottle => match r.cpu_temp {
            Some(t) => Strength::Percent(t),
            None => Strength::Middle,
        },
        _ => Strength::Middle,
    }
}

/// The strength of a kind in the snapshot of an event.
pub fn cause_strength(event: &StutterEvent, kind: CauseKind) -> (s: Strength)
    ensures
        s == strength_of(event.snapshot.readings, kind),
{
    let r = &event.snapshot.readings;
    match kind {
        CauseKind::CpuHigh | CauseKind::CpuSpike => Strength::Percent(r.cpu_usage),
        CauseKind::MemLow => Strength::Percent(r.mem_usage_percent),
        CauseKind::DiskBusy => Strength::Percent(r.disk_busy_percent),
        CauseKind::DpcInterrupt | CauseKind::InterruptStorm => Strength::Percent(r.dpc_percent.max(r.interrupt_percent)),
        CauseKind::ThermalThrottle => match r.cpu_temp {
            Some(t) => Strength::Percent(t),
            None => Strength::Middle,
        },
        _ => Strength::Middle,
    }
}

/// The strength of the main cause of an event.
pub fn primary_strength(event: &StutterEvent) -> (s: Strength)
    ensures
        s == (match event.primary_cause {
            Some(k) => strength_of(event.snapshot.readings, k),
            None => Strength::Middle,
        }),
{
    match event.primary_cause {
        Some(k) => cause_strength(event, k),
        None => Strength::Middle,
    }
}

/// How sure the main cause of an event is.
#[derive(Clone, Copy, Debug, PartialEq, Eq, Structural)]
pub enum Confidence {
    /// There is one cause.
    Single,
    /// The main cause clearly leads.
    Leading,
    /// Several causes came together.
    Unclear,
}

/// The shown label of a confidence.
pub open spec fn confidence_label(c: Confidence) -> Seq<char> {
    match c {
        Confidence::Single => "高"@,
        Confidence::Leading => "较高"@,
        Confidence::Unclear => "主因不显著，疑多因并发"@,
    }
}

/// A confidence in hundredths.
pub open spec fn confidence_points(c: Confidence) -> u32 {
    match c {
        Confidence::Single => 90,
        Confidence::Leading => 70,
        Confidence::Unclear => 35,
    }
}

impl Confidence {
    /// The shown label.
    pub fn label(self) -> (r: &'static str)
        ensures
            r@ == confidence_label(self),
            r@ == match self {
                Confidence::Single => "高"@,
                Confidence::Leading => "较高"@,
                Confidence::Unclear => "主因不显著，疑多因并发"@,
            },
    {
        match self {
            Confidence::Single => "高",
            Confidence::Leading => "较高",
            Confidence::Unclear => "主因不显著，疑多因并发",
        }
    }

    /// The confidence in hundredths.
    pub fn hundredths(self) -> (r: u32)
        ensures
            r == confidence_points(self),
            r == (match self {
                Confidence::Single => 90u32,
                Confidence::Leading => 70u32,
                Confidence::Unclear => 35u32,
            }),
    {
        match self {
            Confidence::Single => 90,
            Confidence::Leading => 70,
            Confidence::Unclear => 35,
        }
    }
}

/// The main cause of an event with causes: the stated one, else the first of its chain.
pub open spec fn main_kind(e: EventModel) -> CauseKind {
    match e.primary_cause {
        Some(k) => k,
        None => chained(e)[0].0,
    }
}

/// The index of the first kind of a chain that is not `main`, from `i` on.
pub open spec fn rival_at(chain: Seq<(CauseKind, i64)>, main: CauseKind, i: int) -> int
    decreases chain.len() - i,
{
    if i >= chain.len() || chain[i].0 != main {
        i
    } else {
        rival_at(chain, main, i + 1)
    }
}

/// By how many milliseconds the main cause of an event precedes the next one; none where the next
/// one was not noted.
pub open spec fn lead_ms(e: EventModel) -> int {
    let chain = chained(e);
    let main = main_kind(e);
    let main_touch = match touch_of(e.cause_first_touch, main) {
        Some(t) => t,
        None => chain[0].1,
    };
    let i = rival_at(chain, main, 0);
    if i < chain.len() && chain[i].1 != i64::MAX {
        chain[i].1 - main_touch
    } else {
        0
    }
}

/// The confidence in the main cause of an event; `ratio` says how many times stronger it is than
/// the next one.
pub open spec fn confidence_of(e: EventModel, ratio: Level) -> Confidence {
    if e.cause_kinds.len() <= 1 {
        Confidence::Single
    } else if lead_ms(e) >= LEADING_GAP_MS || at_most(Level::At(ONE_AND_A_HALF), ratio) {
        Confidence::Leading
    } else {
        Confidence::Unclear
    }
}

fn find_rival(chain: &Vec<(CauseKind, i64)>, main: CauseKind) -> (i: usize)
    ensures
        i <= chain@.len(),
        i == rival_at(chain@, main, 0),
{
    let mut i: usize = 0;
    while i < chain.len() && chain[i].0 == main
        invariant
            i <= chain@.len(),
            rival_at(chain@, main, i as int) == rival_at(chain@, main, 0),
        decreases chain@.len() - i,
    {
        i += 1;
    }
    i
}

/// The cause next to the main one of an event, if it has causes and another one among them.
pub fn rival_cause(event: &StutterEvent) -> (r: Option<CauseKind>)
    ensures
        ({
            let chain = chained(event@);
            let i = rival_at(chain, main_kind(event@), 0);
            if event@.cause_kinds.len() > 0 && i < chain.len() {
                r == Some(chain[i].0)
            } else {
                r is None
            }
        }),
{
    let sorted = sorted_causes_by_first_touch(event);
    if sorted.len() == 0 {
        return None;
    }
    let main = match event.primary_cause {
        Some(k) => k,
        None => sorted[0].0,
    };
    let i = find_rival(&sorted, main);
    if i < sorted.len() {
        Some(sorted[i].0)
    } else {
        None
    }
}

/// The confidence in the main cause of an event. `ratio` is the strength of the main cause over
/// that of [`rival_cause`].
pub fn root_cause_confidence(event: &StutterEvent, ratio: Level) -> (c: Confidence)
    ensures
        c == confidence_of(event@, ratio),
{
    if event.cause_kinds.len() <= 1 {
        return Confidence::Single;
    }
    let sorted = sorted_causes_by_first_touch(event);
    let main = match event.primary_cause {
        Some(k) => k,
        None => sorted[0].0,
    };
    let main_touch: i64 = match first_touch(&event.cause_first_touch, main) {
        Some(t) => t,
        None => sorted[0].1,
    };
    let i = find_rival(&sorted, main);
    let lead: i128 = if i < sorted.len() && sorted[i].1 != i64::MAX {
        sorted[i].1 as i128 - main_touch as i128
    } else {
        0
    };
    if lead >= LEADING_GAP_MS as i128 || Level::At(ONE_AND_A_HALF).le(ratio) {
        Confidence::Leading
    } else {
        Confidence::Unclear
    }
}

/// What a recount calculates besides the figures of a tick.
#[derive(Debug)]
pub struct CoreFigures {
    /// Context switches per second and logical core.
    pub ctx_per_core: Level,
    pub ctx_per_core_text: String,
}

/// Something on the side of the CPU shows that context switches are pressure.
pub open spec fn ctx_evidence(lines: Lines, r: Readings) -> bool {
    at_most(lines.evidence_cpu_percent, r.cpu_usage) || above(r.dpc_percent, lines.dpc_threshold_percent) || above(
        r.interrupt_percent,
        lines.interrupt_threshold_percent,
    )
}

impl DetectionConfig {
    /// Whether something on the side of the CPU shows that context switches are pressure.
    pub fn ctx_switch_has_pressure_evidence(&self, r: &Readings) -> (b: bool)
        ensures
            b == ctx_evidence(self.lines, *r),
    {
        let lines = &self.lines;
        lines.evidence_cpu_percent.le(r.cpu_usage) || r.dpc_percent.gt(lines.dpc_threshold_percent)
            || r.interrupt_percent.gt(lines.interrupt_threshold_percent)
    }
}

/// The number of logical cores that a sample shows, at least one.
pub fn logical_core_count(cores: usize) -> (n: usize)
    ensures
        n == if cores == 0 { 1 } else { cores as int },
{
    if cores == 0 {
        1
    } else {
        cores
    }
}

/// Causes with what memory adds in a recount.
pub open spec fn recount_memory(cfg: DetectionModel, r: Readings, f: Figures, causes: Seq<Seq<char>>) -> Seq<Seq<char>> {
    let c1 = if mem_available_under(cfg.lines, r) {
        causes.push(
            "Available memory "@ + decimal(r.mem_available_mb as nat) + "MB < "@ + decimal(
                cfg.lines.mem_threshold_mb as nat,
            ) + "MB"@,
        )
    } else {
        causes
    };
    let c2 = if mem_usage_over(cfg.lines, r) {
        c1.push("Memory usage "@ + f.mem_text@ + "% > "@ + cfg.texts.mem_threshold_percent + "%"@)
    } else {
        c1
    };
    if paging_counts(cfg.lines, f.commit_percent, r) {
        c2.push("Memory paging "@ + f.page_reads_text@ + "/s > "@ + cfg.texts.page_reads_threshold + "/s"@)
    } else {
        c2
    }
}

/// Causes with what the disk, deferred calls, interrupts and context switches add in a recount.
pub open spec fn recount_core(cfg: DetectionModel, r: Readings, f: Figures, c: CoreFigures, causes: Seq<Seq<char>>) -> Seq<Seq<char>> {
    let c1 = if disk_over(cfg.lines, r) {
        causes.push("Disk busy "@ + f.disk_busy_text@ + "% (IO "@ + f.disk_io_text@ + "ms)"@)
    } else {
        causes
    };
    let c2 = if above(r.dpc_percent, cfg.lines.dpc_threshold_percent) {
        c1.push("DPC time "@ + f.dpc_text@ + "% > "@ + cfg.texts.dpc_threshold_percent + "%"@)
    } else {
        c1
    };
    let c3 = if above(r.interrupt_percent, cfg.lines.interrupt_threshold_percent) {
        c2.push("Interrupt time "@ + f.interrupt_text@ + "% > "@ + cfg.texts.interrupt_threshold_percent + "%"@)
    } else {
        c2
    };
    if above(c.ctx_per_core, cfg.lines.context_switch_threshold_per_core) && ctx_evidence(cfg.lines, r) {
        c3.push(
            "Context switches "@ + f.ctx_switch_text@ + "/s = "@ + c.ctx_per_core_text@ + "/core > "@
                + cfg.texts.context_switch_threshold_per_core + "/core"@,
        )
    } else {
        c3
    }
}

/// A single sample can show throttling: hot, under load, and with a reading of the clock.
pub open spec fn looks_throttled(lines: Lines, r: Readings) -> bool {
    match r.cpu_temp {
        Some(t) => above(t, lines.thermal_threshold_celsius) && r.cpu_freq_mhz is Some && above(
            r.cpu_usage,
            Level::At(THERMAL_LOAD_MIN_USAGE),
        ),
        None => false,
    }
}

/// The causes that a single sample would have under given settings, without the states between
/// ticks: every reading counts where it is over its line.
pub open spec fn recounted(cfg: DetectionModel, r: Readings, f: Figures, c: CoreFigures) -> Seq<Seq<char>> {
    let none = Seq::<Seq<char>>::empty();
    let c1 = if above(r.cpu_usage, cfg.lines.cpu_threshold) {
        none.push("CPU usage "@ + f.cpu_text@ + "% > "@ + cfg.texts.cpu_threshold + "%"@)
    } else {
        none
    };
    let c2 = recount_core(cfg, r, f, c, recount_memory(cfg, r, f, c1));
    if looks_throttled(cfg.lines, r) {
        c2.push("Thermal throttle: CPU "@ + f.thermal.temp_text@ + "°C, freq "@ + f.thermal.freq_text@ + "MHz"@)
    } else {
        c2
    }
}

/// A recount agrees with a detector that has seen nothing, where neither counts context switches and
/// the sample shows no throttling: these two are judged by other lines in a recount.
pub proof fn lemma_recount_agrees_with_detector(
    cfg: DetectionModel,
    r: Readings,
    f: Figures,
    c: CoreFigures,
    peak: Option<Level>,
    now: Clock,
)
    requires
        !above(r.context_switches_per_sec, cfg.lines.context_switch_threshold_per_sec),
        !(above(c.ctx_per_core, cfg.lines.context_switch_threshold_per_core) && ctx_evidence(cfg.lines, r)),
        !looks_throttled(cfg.lines, r),
    ensures
        recounted(cfg, r, f, c) == hard_causes(cfg, hard_next(cfg.lines, quiet(), r, peak, f, now), r, f),
{
}

fn phrase(a: &str, b: &str, c: &str, d: &str, e: &str) -> (s: String)
    ensures
        s@ == a@ + b@ + c@ + d@ + e@,
{
    let mut s = String::from_str(a);
    s.append(b);
    s.append(c);
    s.append(d);
    s.append(e);
    s
}

/// The causes that a single sample would have under given settings.
pub fn detect_core(r: &Readings, f: &Figures, c: &CoreFigures, cfg: &DetectionConfig) -> (causes: Vec<String>)
    ensures
        texts(causes@) == recounted(cfg@, *r, *f, *c),
{
    let lines = &cfg.lines;
    let t = &cfg.texts;
    let mut causes: Vec<String> = Vec::new();
    proof {
        assert(texts(causes@) =~= Seq::<Seq<char>>::empty());
    }
    if r.cpu_usage.gt(lines.cpu_threshold) {
        push_text(&mut causes, phrase("CPU usage ", f.cpu_text.as_str(), "% > ", t.cpu_threshold.as_str(), "%"));
    }
    if r.mem_available_mb < lines.mem_threshold_mb {
        push_text(
            &mut causes,
            phrase(
                "Available memory ",
                decimal_text(r.mem_available_mb).as_str(),
                "MB < ",
                decimal_text(lines.mem_threshold_mb).as_str(),
                "MB",
            ),
        );
    }
    if r.mem_usage_percent.gt(lines.mem_threshold_percent) {
        push_text(
            &mut causes,
            phrase("Memory usage ", f.mem_text.as_str(), "% > ", t.mem_threshold_percent.as_str(), "%"),
        );
    }
    if r.page_reads_per_sec.gt(lines.page_reads_threshold) && cfg.paging_has_pressure_evidence(f.commit_percent, r) {
        push_text(
            &mut causes,
            phrase("Memory paging ", f.page_reads_text.as_str(), "/s > ", t.page_reads_threshold.as_str(), "/s"),
        );
    }
    if r.disk_busy_percent.gt(lines.disk_busy_threshold_percent) || r.disk_avg_io_ms.gt(lines.disk_io_threshold_ms) {
        push_text(
            &mut causes,
            phrase("Disk busy ", f.disk_busy_text.as_str(), "% (IO ", f.disk_io_text.as_str(), "ms)"),
        );
    }
    if r.dpc_percent.gt(lines.dpc_threshold_percent) {
        push_text(&mut causes, phrase("DPC time ", f.dpc_text.as_str(), "% > ", t.dpc_threshold_percent.as_str(), "%"));
    }
    if r.interrupt_percent.gt(lines.interrupt_threshold_percent) {
        push_text(
            &mut causes,
            phrase("Interrupt time ", f.interrupt_text.as_str(), "% > ", t.interrupt_threshold_percent.as_str(), "%"),
        );
    }
    if c.ctx_per_core.gt(lines.context_switch_threshold_per_core) && cfg.ctx_switch_has_pressure_evidence(r) {
        let mut text = phrase(
            "Context switches ",
            f.ctx_switch_text.as_str(),
            "/s = ",
            c.ctx_per_core_text.as_str(),
            "/core > ",
        );
        text.append(t.context_switch_threshold_per_core.as_str());
        text.append("/core");
        push_text(&mut causes, text);
    }
    if let Some(temp) = r.cpu_temp {
        if temp.gt(lines.thermal_threshold_celsius) && r.cpu_freq_mhz.is_some() && r.cpu_usage.gt(
            Level::At(THERMAL_LOAD_MIN_USAGE),
        ) {
            push_text(
                &mut causes,
                phrase(
                    "Thermal throttle: CPU ",
                    f.thermal.temp_text.as_str(),
                    "°C, freq ",
                    f.thermal.freq_text.as_str(),
                    "MHz",
                ),
            );
        }
    }
    causes
}

/// The names of the kinds of an event.
pub open spec fn kind_names(kinds: Seq<CauseKind>) -> Seq<Seq<char>> {
    Seq::new(kinds.len(), |i: int| kind_name(kinds[i]))
}

/// The names of the culprits of an event.
pub open spec fn culprit_names(e: EventModel) -> Seq<Seq<char>> {
    Seq::new(e.culprits.len(), |i: int| e.culprits[i].name)
}

/// The class of a duration: under a second, up to five, longer.
pub open spec fn duration_class(ms: u64) -> Seq<char> {
    if ms < 1000 {
        "短"@
    } else if ms <= 5000 {
        "中"@
    } else {
        "长"@
    }
}

/// What makes events alike: the names of their kinds, of their culprits, and how long they lasted.
pub open spec fn signature(e: EventModel) -> Seq<char> {
    joined(sorted_texts(kind_names(e.cause_kinds)), "|"@) + "|"@ + joined(sorted_texts(culprit_names(e)), "|"@) + "|"@
        + duration_class(e.duration_ms)
}

fn list_kind_names(event: &StutterEvent) -> (r: Vec<String>)
    ensures
        texts(r@) == kind_names(event@.cause_kinds),
{
    let ghost all = kind_names(event@.cause_kinds);
    let mut r: Vec<String> = Vec::new();
    let mut i: usize = 0;
    proof {
        assert(texts(r@) =~= all.take(0));
    }
    while i < event.cause_kinds.len()
        invariant
            i <= event.cause_kinds@.len(),
            all == kind_names(event@.cause_kinds),
            texts(r@) == all.take(i as int),
        decreases event.cause_kinds@.len() - i,
    {
        push_text(&mut r, String::from_str(event.cause_kinds[i].name()));
        i += 1;
        proof {
            assert(texts(r@) =~= all.take(i as int));
        }
    }
    proof {
        assert(all.take(all.len() as int) =~= all);
    }
    r
}

fn list_culprit_names(event: &StutterEvent) -> (r: Vec<String>)
    ensures
        texts(r@) == culprit_names(event@),
{
    let ghost all = culprit_names(event@);
    let mut r: Vec<String> = Vec::new();
    let mut i: usize = 0;
    proof {
        assert(texts(r@) =~= all.take(0));
    }
    while i < event.culprits.len()
        invariant
            i <= event.culprits@.len(),
            all == culprit_names(event@),
            texts(r@) == all.take(i as int),
        decreases event.culprits@.len() - i,
    {
        push_text(&mut r, event.culprits[i].name.clone());
        i += 1;
        proof {
            assert(event@.culprits[i - 1] == event.culprits@[i - 1]@);
            assert(texts(r@) =~= all.take(i as int));
        }
    }
    proof {
        assert(all.take(all.len() as int) =~= all);
    }
    r
}

/// What makes events alike.
pub fn signature_of(event: &StutterEvent) -> (s: String)
    ensures
        s@ == signature(event@),
{
    let mut s = join(&sort_texts(&list_kind_names(event)), "|");
    s.append("|");
    s.append(join(&sort_texts(&list_culprit_names(event)), "|").as_str());
    s.append("|");
    s.append(
        if event.duration_ms < 1000 {
            "短"
        } else if event.duration_ms <= 5000 {
            "中"
        } else {
            "长"
        },
    );
    s
}

/// Events that are alike.
#[derive(Debug)]
pub struct EventProfile {
    pub signature: String,
    pub count: u32,
    pub total_duration_ms: u64,
}

/// What an [`EventProfile`] holds.
pub struct ProfileModel {
    pub signature: Seq<char>,
    pub count: u32,
    pub total_duration_ms: u64,
}

impl View for EventProfile {
    type V = ProfileModel;

    open spec fn view(&self) -> ProfileModel {
        ProfileModel { signature: self.signature@, count: self.count, total_duration_ms: self.total_duration_ms }
    }
}

/// What profiles hold.
pub open spec fn profile_models(v: Seq<EventProfile>) -> Seq<ProfileModel> {
    Seq::new(v.len(), |i: int| v[i]@)
}

/// The signatures of events.
pub open spec fn signatures(events: Seq<EventModel>) -> Seq<Seq<char>> {
    Seq::new(events.len(), |i: int| signature(events[i]))
}

/// The durations of events.
pub open spec fn event_durations(events: Seq<EventModel>) -> Seq<u64> {
    Seq::new(events.len(), |i: int| events[i].duration_ms)
}

/// The profiles of events, in the order in which they first occur.
pub open spec fn profiles_of(events: Seq<EventModel>) -> Seq<ProfileModel> {
    let sigs = signatures(events);
    let groups = groups_of(sigs);
    Seq::new(
        groups.len(),
        |i: int|
            ProfileModel {
                signature: sigs[groups[i][0]],
                count: groups[i].len() as u32,
                total_duration_ms: group_sum(event_durations(events), groups[i]) as u64,
            },
    )
}

/// The keys of a ranking of profiles: the most frequent first.
pub open spec fn profile_keys(v: Seq<ProfileModel>) -> Seq<i128> {
    Seq::new(v.len(), |i: int| (-(v[i].count as int)) as i128)
}

/// The profiles of events, the most frequent first.
pub open spec fn clustered(events: Seq<EventModel>) -> Seq<ProfileModel> {
    reordered(profiles_of(events), ascending(profile_keys(profiles_of(events))))
}

fn push_profile(v: &mut Vec<EventProfile>, a: EventProfile)
    ensures
        profile_models(final(v)@) == profile_models(old(v)@).push(a@),
        final(v)@.len() == old(v)@.len() + 1,
{
    v.push(a);
    proof {
        assert(profile_models(v@) =~= profile_models(old(v)@).push(a@));
    }
}

/// The events of each profile can be counted and their durations summed.
pub open spec fn profiles_fit(events: Seq<EventModel>) -> bool {
    groups_fit(event_durations(events), groups_of(signatures(events)))
}

/// The profiles of events, the most frequent first.
pub fn cluster_profiles(events: &Vec<StutterEvent>) -> (r: Vec<EventProfile>)
    requires
        profiles_fit(event_models(events@)),
    ensures
        profile_models(r@) == clustered(event_models(events@)),
{
    let ghost es = event_models(events@);
    let ghost sigs_seq = signatures(es);
    let mut sigs: Vec<String> = Vec::new();
    let mut durations: Vec<u64> = Vec::new();
    let mut i: usize = 0;
    proof {
        assert(texts(sigs@) =~= sigs_seq.take(0));
        assert(durations@ =~= event_durations(es).take(0));
    }
    while i < events.len()
        invariant
            i <= events@.len(),
            es == event_models(events@),
            sigs_seq == signatures(es),
            texts(sigs@) == sigs_seq.take(i as int),
            durations@ == event_durations(es).take(i as int),
        decreases events@.len() - i,
    {
        proof {
            assert(es[i as int] == events@[i as int]@);
        }
        push_text(&mut sigs, signature_of(&events[i]));
        durations.push(events[i].duration_ms);
        i += 1;
        proof {
            assert(texts(sigs@) =~= sigs_seq.take(i as int));
            assert(durations@ =~= event_durations(es).take(i as int));
        }
    }
    proof {
        assert(texts(sigs@) =~= sigs_seq);
        assert(durations@ =~= event_durations(es));
        assert(sigs@.len() == texts(sigs@).len());
    }
    let groups = group_texts(&sigs);
    let ghost all = profiles_of(es);
    let mut profiles: Vec<EventProfile> = Vec::new();
    let mut keys: Vec<i128> = Vec::new();
    let mut k: usize = 0;
    proof {
        assert(profile_models(profiles@) =~= all.take(0));
        assert(keys@ =~= profile_keys(all).take(0));
    }
    while k < groups.len()
        invariant
            k <= groups@.len(),
            all == profiles_of(es),
            sigs_seq == signatures(es),
            sigs@.len() == es.len(),
            texts(sigs@) == sigs_seq,
            durations@ == event_durations(es),
            groups_fit(event_durations(es), groups_of(sigs_seq)),
            members(groups@) == groups_of(sigs_seq),
            groups_ok(members(groups@), sigs_seq, es.len() as int),
            profile_models(profiles@) == all.take(k as int),
            keys@ == profile_keys(all).take(k as int),
        decreases groups@.len() - k,
    {
        proof {
            let g = members(groups@)[k as int];
            assert(g == positions(groups@[k as int]@));
            assert(group_ok(g, sigs_seq, es.len() as int));
            assert(g[0] == groups@[k as int]@[0]);
            assert(texts(sigs@)[g[0]] == sigs@[g[0]]@);
            assert(group_fits(event_durations(es), g));
            assert forall|i: int| 0 <= i < g.len() implies #[trigger] groups@[k as int]@[i] < durations@.len() by {
                assert(g[i] == groups@[k as int]@[i]);
            }
        }
        let total = sum_group(&durations, &groups[k]);
        let count: u32 = groups[k].len() as u32;
        keys.push(-(count as i128));
        push_profile(
            &mut profiles,
            EventProfile { signature: sigs[groups[k][0]].clone(), count, total_duration_ms: total },
        );
        k += 1;
        proof {
            assert(profile_models(profiles@) =~= all.take(k as int));
            assert(keys@ =~= profile_keys(all).take(k as int));
        }
    }
    proof {
        assert(all.take(groups@.len() as int) =~= all);
        assert(keys@ =~= profile_keys(all));
    }
    let order = ascending_order(&keys);
    let ghost ranked = reordered(all, positions(order@));
    let mut r: Vec<EventProfile> = Vec::new();
    let mut j: usize = 0;
    proof {
        assert(profile_models(r@) =~= ranked.take(0));
    }
    while j < order.len()
        invariant
            j <= order@.len(),
            order@.len() == profiles@.len(),
            forall|i: int| 0 <= i < order@.len() ==> #[trigger] order@[i] < profiles@.len(),
            profile_models(profiles@) == all,
            ranked == reordered(all, positions(order@)),
            profile_models(r@) == ranked.take(j as int),
        decreases order@.len() - j,
    {
        let c = &profiles[order[j]];
        proof {
            assert(profile_models(profiles@)[order@[j as int] as int] == c@);
        }
        push_profile(
            &mut r,
            EventProfile {
                signature: c.signature.clone(),
                count: c.count,
                total_duration_ms: c.total_duration_ms,
            },
        );
        j += 1;
        proof {
            assert(profile_models(r@) =~= ranked.take(j as int));
        }
    }
    proof {
        assert(ranked.take(order@.len() as int) =~= ranked);
    }
    r
}

/// The index of the first profile that is known, having occurred twice, and fits a signature.
pub open spec fn profile_at(profiles: Seq<ProfileModel>, sig: Seq<char>, i: int) -> int
    decreases profiles.len() - i,
{
    if i >= profiles.len() || profiles[i].count >= 2 && profiles[i].signature == sig {
        i
    } else {
        profile_at(profiles, sig, i + 1)
    }
}

/// How a matched profile is told.
pub open spec fn match_text(e: EventModel, p: ProfileModel) -> Seq<char> {
    let names = without_runs(sorted_texts(culprit_names(e)));
    let process = if names.len() == 0 {
        "未知进程"@
    } else {
        joined(names, "、"@)
    };
    "匹配已知画像：进程"@ + process + "典型卡顿（"@ + decimal(p.count as nat) + " 次，平均 "@ + mean_seconds(
        p.total_duration_ms as nat,
        p.count as nat,
    ) + "s）"@
}

/// Tells which known profile an event fits, if it fits one.
pub fn match_profile(event: &StutterEvent, profiles: &Vec<EventProfile>) -> (r: Option<String>)
    ensures
        ({
            let all = profile_models(profiles@);
            let i = profile_at(all, signature(event@), 0);
            match r {
                Some(t) => i < all.len() && t@ == match_text(event@, all[i]),
                None => i >= all.len(),
            }
        }),
{
    let sig = signature_of(event);
    let mut i: usize = 0;
    while i < profiles.len() && !(profiles[i].count >= 2 && profiles[i].signature == sig)
        invariant
            i <= profiles@.len(),
            sig@ == signature(event@),
            profile_at(profile_models(profiles@), sig@, i as int) == profile_at(profile_models(profiles@), sig@, 0),
        decreases profiles@.len() - i,
    {
        i += 1;
    }
    if i >= profiles.len() {
        return None;
    }
    let known = &profiles[i];
    let names = drop_runs(&sort_texts(&list_culprit_names(event)));
    proof {
        assert(names@.len() == texts(names@).len());
    }
    let process = if names.len() == 0 {
        String::from_str("未知进程")
    } else {
        join(&names, "、")
    };
    let mut t = String::from_str("匹配已知画像：进程");
    t.append(process.as_str());
    t.append("典型卡顿（");
    t.append(decimal_text(known.count as u64).as_str());
    t.append(" 次，平均 ");
    t.append(mean_seconds_text(known.total_duration_ms, known.count).as_str());
    t.append("s）");
    Some(t)
}

/// Two processes that were culprits together, in the order of their names, and how often.
#[derive(Debug)]
pub struct CoOccurrence {
    pub pair: (String, String),
    pub count: u32,
}

/// What a [`CoOccurrence`] holds.
pub struct PairModel {
    pub pair: (Seq<char>, Seq<char>),
    pub count: u32,
}

impl View for CoOccurrence {
    type V = PairModel;

    open spec fn view(&self) -> PairModel {
        PairModel { pair: (self.pair.0@, self.pair.1@), count: self.count }
    }
}

/// What co-occurrences hold.
pub open spec fn pair_models(v: Seq<CoOccurrence>) -> Seq<PairModel> {
    Seq::new(v.len(), |i: int| v[i]@)
}

/// The pairs of the name at `i` with the names behind it, up to `n`.
pub open spec fn pairs_with(names: Seq<Seq<char>>, i: int, n: int) -> Seq<(Seq<char>, Seq<char>)>
    decreases n - i,
{
    if n <= i + 1 {
        seq![]
    } else {
        pairs_with(names, i, n - 1).push((names[i], names[n - 1]))
    }
}

/// The pairs of the first `n` names with the names behind them.
pub open spec fn pairs_upto(names: Seq<Seq<char>>, n: int) -> Seq<(Seq<char>, Seq<char>)>
    decreases n,
{
    if n <= 0 {
        seq![]
    } else {
        pairs_upto(names, n - 1) + pairs_with(names, n - 1, names.len() as int)
    }
}

/// The distinct names of the culprits of an event, in order.
pub open spec fn distinct_names(e: EventModel) -> Seq<Seq<char>> {
    without_runs(sorted_texts(culprit_names(e)))
}

/// All pairs of culprits of the first `n` events.
pub open spec fn all_pairs(events: Seq<EventModel>, n: int) -> Seq<(Seq<char>, Seq<char>)>
    decreases n,
{
    if n <= 0 {
        seq![]
    } else {
        all_pairs(events, n - 1) + pairs_upto(
            distinct_names(events[n - 1]),
            distinct_names(events[n - 1]).len() as int,
        )
    }
}

/// How often each pair occurs, in the order in which they first do.
pub open spec fn pair_counts(pairs: Seq<(Seq<char>, Seq<char>)>) -> Seq<PairModel> {
    let groups = groups_of(pairs);
    Seq::new(groups.len(), |i: int| PairModel { pair: pairs[groups[i][0]], count: groups[i].len() as u32 })
}

/// The keys of a ranking of pairs: the most frequent first.
pub open spec fn pair_keys(v: Seq<PairModel>) -> Seq<i128> {
    Seq::new(v.len(), |i: int| (-(v[i].count as int)) as i128)
}

/// How often each pair occurs, the most frequent first.
pub open spec fn pair_ranking(pairs: Seq<(Seq<char>, Seq<char>)>) -> Seq<PairModel> {
    reordered(pair_counts(pairs), ascending(pair_keys(pair_counts(pairs))))
}

fn push_pair(v: &mut Vec<(String, String)>, a: &String, b: &String)
    ensures
        pair_texts(final(v)@) == pair_texts(old(v)@).push((a@, b@)),
{
    v.push((a.clone(), b.clone()));
    proof {
        assert(pair_texts(v@) =~= pair_texts(old(v)@).push((a@, b@)));
    }
}

fn push_count(v: &mut Vec<CoOccurrence>, a: CoOccurrence)
    ensures
        pair_models(final(v)@) == pair_models(old(v)@).push(a@),
        final(v)@.len() == old(v)@.len() + 1,
{
    v.push(a);
    proof {
        assert(pair_models(v@) =~= pair_models(old(v)@).push(a@));
    }
}

fn add_pairs(pairs: &mut Vec<(String, String)>, names: &Vec<String>)
    ensures
        pair_texts(final(pairs)@) == pair_texts(old(pairs)@) + pairs_upto(texts(names@), names@.len() as int),
{
    let ghost start = pair_texts(pairs@);
    let ghost ns = texts(names@);
    let mut i: usize = 0;
    proof {
        assert(start + pairs_upto(ns, 0) =~= start);
    }
    while i < names.len()
        invariant
            i <= names@.len(),
            ns == texts(names@),
            pair_texts(pairs@) == start + pairs_upto(ns, i as int),
        decreases names@.len() - i,
    {
        let ghost before = pair_texts(pairs@);
        let mut j: usize = i + 1;
        proof {
            assert(before + pairs_with(ns, i as int, i + 1) =~= before);
        }
        while j < names.len()
            invariant
                i < j <= names@.len(),
                ns == texts(names@),
                pair_texts(pairs@) == before + pairs_with(ns, i as int, j as int),
            decreases names@.len() - j,
        {
            push_pair(pairs, &names[i], &names[j]);
            j += 1;
            proof {
                assert(pair_texts(pairs@) =~= before + pairs_with(ns, i as int, j as int));
            }
        }
        i += 1;
        proof {
            assert(pair_texts(pairs@) =~= start + pairs_upto(ns, i as int));
        }
    }
}

/// The occurrences of each pair can be counted.
pub open spec fn pairs_fit(pairs: Seq<(Seq<char>, Seq<char>)>) -> bool {
    forall|i: int| 0 <= i < groups_of(pairs).len() ==> (#[trigger] groups_of(pairs)[i]).len() <= u32::MAX
}

/// How often two processes were culprits of the same event, the most frequent pair first.
pub fn cooccurrence_pairs(events: &Vec<StutterEvent>) -> (r: Vec<CoOccurrence>)
    requires
        pairs_fit(all_pairs(event_models(events@), events@.len() as int)),
    ensures
        pair_models(r@) == pair_ranking(all_pairs(event_models(events@), events@.len() as int)),
{
    let ghost es = event_models(events@);
    let mut pairs: Vec<(String, String)> = Vec::new();
    let mut n: usize = 0;
    proof {
        assert(pair_texts(pairs@) =~= seq![]);
    }
    while n < events.len()
        invariant
            n <= events@.len(),
            es == event_models(events@),
            pair_texts(pairs@) == all_pairs(es, n as int),
        decreases events@.len() - n,
    {
        proof {
            assert(es[n as int] == events@[n as int]@);
        }
        let names = drop_runs(&sort_texts(&list_culprit_names(&events[n])));
        proof {
            assert(names@.len() == texts(names@).len());
        }
        add_pairs(&mut pairs, &names);
        n += 1;
    }
    let ghost ps = pair_texts(pairs@);
    proof {
        assert(ps.len() == pairs@.len());
    }
    let groups = group_pairs(&pairs);
    let ghost all = pair_counts(ps);
    let mut counts: Vec<CoOccurrence> = Vec::new();
    let mut keys: Vec<i128> = Vec::new();
    let mut k: usize = 0;
    proof {
        assert(pair_models(counts@) =~= all.take(0));
        assert(keys@ =~= pair_keys(all).take(0));
    }
    while k < groups.len()
        invariant
            k <= groups@.len(),
            ps == pair_texts(pairs@),
            pairs_fit(ps),
            all == pair_counts(ps),
            members(groups@) == groups_of(ps),
            groups_ok(members(groups@), ps, ps.len() as int),
            pair_models(counts@) == all.take(k as int),
            keys@ == pair_keys(all).take(k as int),
        decreases groups@.len() - k,
    {
        proof {
            let g = members(groups@)[k as int];
            assert(g == positions(groups@[k as int]@));
            assert(group_ok(g, ps, ps.len() as int));
            assert(g[0] == groups@[k as int]@[0]);
            assert(ps[g[0]] == (pairs@[g[0]].0@, pairs@[g[0]].1@));
            assert(groups_of(ps)[k as int].len() <= u32::MAX);
        }
        let at = groups[k][0];
        let count: u32 = groups[k].len() as u32;
        keys.push(-(count as i128));
        push_count(&mut counts, CoOccurrence { pair: (pairs[at].0.clone(), pairs[at].1.clone()), count });
        k += 1;
        proof {
            assert(pair_models(counts@) =~= all.take(k as int));
            assert(keys@ =~= pair_keys(all).take(k as int));
        }
    }
    proof {
        assert(all.take(groups@.len() as int) =~= all);
        assert(keys@ =~= pair_keys(all));
    }
    let order = ascending_order(&keys);
    let ghost ranked = reordered(all, positions(order@));
    let mut r: Vec<CoOccurrence> = Vec::new();
    let mut j: usize = 0;
    proof {
        assert(pair_models(r@) =~= ranked.take(0));
    }
    while j < order.len()
        invariant
            j <= order@.len(),
            order@.len() == counts@.len(),
            forall|i: int| 0 <= i < order@.len() ==> #[trigger] order@[i] < counts@.len(),
            pair_models(counts@) == all,
            ranked == reordered(all, positions(order@)),
            pair_models(r@) == ranked.take(j as int),
        decreases order@.len() - j,
    {
        let c = &counts[order[j]];
        proof {
            assert(pair_models(counts@)[order@[j as int] as int] == c@);
        }
        push_count(&mut r, CoOccurrence { pair: (c.pair.0.clone(), c.pair.1.clone()), count: c.count });
        j += 1;
        proof {
            assert(pair_models(r@) =~= ranked.take(j as int));
        }
    }
    proof {
        assert(ranked.take(order@.len() as int) =~= ranked);
    }
    r
}

/// What a process typically uses when it is a culprit.
#[derive(Debug)]
pub struct ProcessBaseline {
    pub name: String,
    /// The mean of its CPU use.
    pub typical_cpu: Level,
    /// The mean of its memory use in megabytes.
    pub typical_mem_mb: Level,
    /// How often it was a culprit.
    pub appearances: u32,
}

/// The baselines of processes by the mentions of each. `means` holds the means of the CPU and the
/// memory that each group used.
pub fn process_baseline(groups: &Vec<CulpritGroup>, means: &Vec<(Level, Level)>) -> (r: Vec<ProcessBaseline>)
    requires
        means@.len() == groups@.len(),
    ensures
        r@.len() == groups@.len(),
        forall|i: int|
            0 <= i < r@.len() ==> {
                &&& (#[trigger] r@[i]).name@ == groups@[i].name@
                &&& r@[i].typical_cpu == means@[i].0
                &&& r@[i].typical_mem_mb == means@[i].1
                &&& r@[i].appearances == groups@[i].count
            },
{
    let mut r: Vec<ProcessBaseline> = Vec::new();
    let mut i: usize = 0;
    while i < groups.len()
        invariant
            i <= groups@.len(),
            means@.len() == groups@.len(),
            r@.len() == i,
            forall|k: int|
                0 <= k < r@.len() ==> {
                    &&& (#[trigger] r@[k]).name@ == groups@[k].name@
                    &&& r@[k].typical_cpu == means@[k].0
                    &&& r@[k].typical_mem_mb == means@[k].1
                    &&& r@[k].appearances == groups@[k].count
                },
        decreases groups@.len() - i,
    {
        r.push(
            ProcessBaseline {
                name: groups[i].name.clone(),
                typical_cpu: means[i].0,
                typical_mem_mb: means[i].1,
                appearances: groups[i].count,
            },
        );
        i += 1;
    }
    r
}

/// How far a culprit deviates from its typical use.
#[derive(Debug)]
pub struct Deviation {
    pub name: String,
    /// Its CPU use as a multiple of the typical one.
    pub multiple: Level,
    pub significant: bool,
}

/// The index of the first baseline with a name, from `i` on.
pub open spec fn baseline_at(baselines: Seq<ProcessBaseline>, name: Seq<char>, i: int) -> int
    decreases baselines.len() - i,
{
    if i >= baselines.len() || baselines[i].name@ == name {
        i
    } else {
        baseline_at(baselines, name, i + 1)
    }
}

/// The multiple of a culprit: `quotient` is its CPU use over the typical one of its baseline.
pub open spec fn multiple_of(baselines: Seq<ProcessBaseline>, p: crate::types::ProcessModel, quotient: Level) -> Level {
    let i = baseline_at(baselines, p.name, 0);
    if i >= baselines.len() {
        Level::At(0)
    } else if above(baselines[i].typical_cpu, Level::At(0)) {
        quotient
    } else {
        p.cpu_usage
    }
}

/// A deviation counts: the process was a culprit often enough, and uses clearly more than usual.
pub open spec fn deviates(baselines: Seq<ProcessBaseline>, p: crate::types::ProcessModel, multiple: Level) -> bool {
    let i = baseline_at(baselines, p.name, 0);
    i < baselines.len() && baselines[i].appearances >= MIN_BASELINE_APPEARANCES && above(
        multiple,
        Level::At(ONE_AND_A_HALF),
    )
}

fn find_baseline(baselines: &Vec<ProcessBaseline>, name: &String) -> (i: usize)
    ensures
        i <= baselines@.len(),
        i == baseline_at(baselines@, name@, 0),
{
    let mut i: usize = 0;
    while i < baselines.len() && !(baselines[i].name == *name)
        invariant
            i <= baselines@.len(),
            baseline_at(baselines@, name@, i as int) == baseline_at(baselines@, name@, 0),
        decreases baselines@.len() - i,
    {
        i += 1;
    }
    i
}

/// The typical CPU use of a process, if it has a baseline.
pub open spec fn typical_of(baselines: Seq<ProcessBaseline>, name: Seq<char>) -> Option<Level> {
    let i = baseline_at(baselines, name, 0);
    if i < baselines.len() {
        Some(baselines[i].typical_cpu)
    } else {
        None
    }
}

/// The typical CPU use of each culprit of an event, where it has a baseline.
pub fn typical_cpus(event: &StutterEvent, baselines: &Vec<ProcessBaseline>) -> (r: Vec<Option<Level>>)
    ensures
        r@ == Seq::new(event@.culprits.len(), |i: int| typical_of(baselines@, event@.culprits[i].name)),
{
    let ghost all = Seq::new(event@.culprits.len(), |i: int| typical_of(baselines@, event@.culprits[i].name));
    let mut r: Vec<Option<Level>> = Vec::new();
    let mut i: usize = 0;
    while i < event.culprits.len()
        invariant
            i <= event.culprits@.len(),
            all == Seq::new(event@.culprits.len(), |i: int| typical_of(baselines@, event@.culprits[i].name)),
            r@ == all.take(i as int),
        decreases event.culprits@.len() - i,
    {
        let p = &event.culprits[i];
        proof {
            assert(event@.culprits[i as int] == p@);
        }
        let at = find_baseline(baselines, &p.name);
        r.push(
            if at < baselines.len() {
                Some(baselines[at].typical_cpu)
            } else {
                None
            },
        );
        i += 1;
        proof {
            assert(r@ =~= all.take(i as int));
        }
    }
    proof {
        assert(all.take(event.culprits@.len() as int) =~= all);
    }
    r
}

/// How far each culprit of an event deviates from its typical use. `quotients` holds, for each
/// culprit, its CPU use over the typical one of its baseline.
pub fn deviation_flags(event: &StutterEvent, baselines: &Vec<ProcessBaseline>, quotients: &Vec<Level>) -> (r: Vec<
    Deviation,
>)
    requires
        quotients@.len() == event.culprits@.len(),
    ensures
        r@.len() == event.culprits@.len(),
        forall|i: int|
            0 <= i < r@.len() ==> {
                let p = event@.culprits[i];
                let m = multiple_of(baselines@, p, quotients@[i]);
                &&& (#[trigger] r@[i]).name@ == p.name
                &&& r@[i].multiple == m
                &&& r@[i].significant == deviates(baselines@, p, m)
            },
{
    let mut r: Vec<Deviation> = Vec::new();
    let mut i: usize = 0;
    while i < event.culprits.len()
        invariant
            i <= event.culprits@.len(),
            quotients@.len() == event.culprits@.len(),
            r@.len() == i,
            forall|k: int|
                0 <= k < r@.len() ==> {
                    let p = event@.culprits[k];
                    let m = multiple_of(baselines@, p, quotients@[k]);
                    &&& (#[trigger] r@[k]).name@ == p.name
                    &&& r@[k].multiple == m
                    &&& r@[k].significant == deviates(baselines@, p, m)
                },
        decreases event.culprits@.len() - i,
    {
        let p = &event.culprits[i];
        proof {
            assert(event@.culprits[i as int] == p@);
        }
        let at = find_baseline(baselines, &p.name);
        let (multiple, significant) = if at < baselines.len() {
            let b = &baselines[at];
            let m = if b.typical_cpu.gt(Level::At(0)) {
                quotients[i]
            } else {
                p.cpu_usage
            };
            (m, b.appearances >= MIN_BASELINE_APPEARANCES && m.gt(Level::At(ONE_AND_A_HALF)))
        } else {
            (Level::At(0), false)
        };
        r.push(Deviation { name: p.name.clone(), multiple, significant });
        i += 1;
    }
    r
}

proof fn lemma_pairs_ordered(names: Seq<Seq<char>>, i: int, n: int)
    requires
        strictly_ascending(names),
        0 <= i,
        n <= names.len(),
    ensures
        forall|k: int|
            0 <= k < pairs_with(names, i, n).len() ==> text_less(
                (#[trigger] pairs_with(names, i, n)[k]).0,
                pairs_with(names, i, n)[k].1,
            ),
    decreases n - i,
{
    if n > i + 1 {
        lemma_pairs_ordered(names, i, n - 1);
        let p = pairs_with(names, i, n);
        assert forall|k: int| 0 <= k < p.len() implies text_less((#[trigger] p[k]).0, p[k].1) by {
            if k < p.len() - 1 {
                assert(p[k] == pairs_with(names, i, n - 1)[k]);
            } else {
                assert(p[k] == (names[i], names[n - 1]));
            }
        }
    }
}

proof fn lemma_pairs_upto_ordered(names: Seq<Seq<char>>, n: int)
    requires
        strictly_ascending(names),
        n <= names.len(),
    ensures
        forall|k: int|
            0 <= k < pairs_upto(names, n).len() ==> text_less(
                (#[trigger] pairs_upto(names, n)[k]).0,
                pairs_upto(names, n)[k].1,
            ),
    decreases n,
{
    if n > 0 {
        lemma_pairs_upto_ordered(names, n - 1);
        lemma_pairs_ordered(names, n - 1, names.len() as int);
        let p = pairs_upto(names, n);
        let front = pairs_upto(names, n - 1);
        assert forall|k: int| 0 <= k < p.len() implies text_less((#[trigger] p[k]).0, p[k].1) by {
            if k < front.len() {
                assert(p[k] == front[k]);
            } else {
                assert(p[k] == pairs_with(names, n - 1, names.len() as int)[k - front.len()]);
            }
        }
    }
}

/// Every pair of culprits stands in the order of its names, so that no pair is counted twice
/// with its names exchanged, and no process is paired with itself.
pub proof fn lemma_pairs_stand_in_order(events: Seq<EventModel>, n: int)
    requires
        0 <= n <= events.len(),
        forall|i: int| 0 <= i < events.len() ==> (#[trigger] events[i]).culprits.len() <= u64::MAX,
    ensures
        forall|k: int|
            0 <= k < all_pairs(events, n).len() ==> text_less(
                (#[trigger] all_pairs(events, n)[k]).0,
                all_pairs(events, n)[k].1,
            ),
    decreases n,
{
    if n > 0 {
        lemma_pairs_stand_in_order(events, n - 1);
        let e = events[n - 1];
        let names = distinct_names(e);
        lemma_distinct_sorted(culprit_names(e));
        lemma_pairs_upto_ordered(names, names.len() as int);
        let p = all_pairs(events, n);
        let front = all_pairs(events, n - 1);
        assert forall|k: int| 0 <= k < p.len() implies text_less((#[trigger] p[k]).0, p[k].1) by {
            if k < front.len() {
                assert(p[k] == front[k]);
            } else {
                assert(p[k] == pairs_upto(names, names.len() as int)[k - front.len()]);
            }
        }
    }
}

/// The chain of an event lists each of its kinds, the earliest sighting first and equal ones by
/// name; its first kind is what set the event off.
pub proof fn lemma_chain_is_ordered(e: EventModel, i: int, j: int)
    requires
        0 <= i < j < e.cause_kinds.len(),
    ensures
        chained(e).len() == e.cause_kinds.len(),
        chained(e)[i].1 < chained(e)[j].1 || chained(e)[i].1 == chained(e)[j].1 && name_rank(chained(e)[i].0)
            <= name_rank(chained(e)[j].0),
{
    let kinds = kinds_with_touch(e);
    let keys = chain_keys(kinds);
    lemma_ascending(keys);
    let order = ascending(keys);
    let x = order[i];
    let y = order[j];
    assert(keys[x] <= keys[y]);
}

/// A ranking of pairs never rises: a later pair occurs no more often.
pub proof fn lemma_pair_ranking_falls(pairs: Seq<(Seq<char>, Seq<char>)>, i: int, j: int)
    requires
        0 <= i < j < pair_ranking(pairs).len(),
    ensures
        pair_ranking(pairs)[i].count >= pair_ranking(pairs)[j].count,
{
    let keys = pair_keys(pair_counts(pairs));
    lemma_ascending(keys);
    let x = ascending(keys)[i];
    let y = ascending(keys)[j];
    assert(keys[x] <= keys[y]);
}

} // verus!
