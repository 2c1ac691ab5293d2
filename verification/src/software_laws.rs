//! What software causes are found, and what an event tells once they are taken in.

use crate::cause::{software_kind, software_rank, CauseKind, EventModel};
use crate::monitor::{concluded, MonitorModel};
use crate::software_root_cause::{
    counts_for, counts_of, fresh_kinds, fullest_process, gravity_keys, in_evidence, lemma_software_causes_ranked, merged_event, number,
    objects_of, resource_kinds, shows, software_causes, software_kinds, software_taken, software_text, software_texts, sum_range,
    telling_from, told_from, trend_of, with_counts, HandleTrend, LeakLimits, WindowsEventRecord,
};
use crate::order::{ascending, lemma_ascending};
use crate::text::{decimal, occurs};
use crate::types::ProcessModel;
use vstd::prelude::*;

verus! {

/// The sum of counts.
pub open spec fn total(v: Seq<u32>) -> int
    decreases v.len(),
{
    if v.len() == 0 {
        0
    } else {
        v[0] + total(v.skip(1))
    }
}

proof fn lemma_total_grows(v: Seq<u32>, x: u32)
    ensures
        total(v.push(x)) == total(v) + x,
    decreases v.len(),
{
    reveal_with_fuel(total, 2);
    if v.len() == 0 {
        assert(v.push(x).skip(1) =~= seq![]);
    } else {
        assert(v.push(x).skip(1) =~= v.skip(1).push(x));
        lemma_total_grows(v.skip(1), x);
    }
}

proof fn lemma_total(v: Seq<u32>, from: int, to: int)
    requires
        0 <= from <= to <= v.len(),
    ensures
        sum_range(v, from, to) == total(v.subrange(from, to)),
    decreases to - from,
{
    if to > from {
        lemma_total(v, from, to - 1);
        lemma_total_grows(v.subrange(from, to - 1), v[to - 1]);
        assert(v.subrange(from, to) =~= v.subrange(from, to - 1).push(v[to - 1]));
    } else {
        assert(v.subrange(from, to) =~= seq![]);
    }
}

/// Some count, at whatever position, is over a line.
pub open spec fn once_over(v: Seq<u32>, line: u32) -> bool {
    exists|i: int| 0 <= i < v.len() && #[trigger] v[i] > line
}

/// The mean of the later half of two counts or more exceeds that of the earlier half by at least
/// `growth`, without rounding. Of an odd number the middle count is in the later half.
pub open spec fn mean_rose(v: Seq<u32>, growth: u32) -> bool {
    let half = v.len() as int / 2;
    let rest = v.len() - half;
    v.len() >= 2 && total(v.skip(half)) * half >= total(v.take(half)) * rest + growth * half * rest
}

/// Handles are normal only where no count is over the line; over it they leak where their mean rises
/// enough, and are merely many otherwise. Without counts of the stutter the present one is judged.
pub proof fn lemma_handles_over_the_line(history: Seq<u32>, current: u32, line: u32, growth: u32)
    ensures
        ({
            let v = if history.len() > 0 {
                history
            } else {
                seq![current]
            };
            let r = trend_of(counts_of(history, current), line, growth);
            &&& r == HandleTrend::Normal <==> !once_over(v, line)
            &&& r == HandleTrend::Leak <==> once_over(v, line) && mean_rose(v, growth)
            &&& r == HandleTrend::High <==> once_over(v, line) && !mean_rose(v, growth)
        }),
{
    let v = counts_of(history, current);
    let n = v.len() as int;
    let half = n / 2;
    lemma_total(v, half, n);
    lemma_total(v, 0, half);
    assert(v.skip(half) =~= v.subrange(half, n));
    assert(v.take(half) =~= v.subrange(0, half));
}

/// A count over the line, wherever it stands, keeps handles from being normal; where the mean rises too
/// they leak.
pub proof fn lemma_any_count_tells(history: Seq<u32>, current: u32, line: u32, growth: u32, i: int)
    requires
        0 <= i < history.len(),
        history[i] > line,
    ensures
        trend_of(counts_of(history, current), line, growth) != HandleTrend::Normal,
        mean_rose(history, growth) ==> trend_of(counts_of(history, current), line, growth) == HandleTrend::Leak,
{
    lemma_handles_over_the_line(history, current, line, growth);
}

/// The handle counts that are judged for a culprit.
pub open spec fn judged_counts(p: ProcessModel, history: Map<u32, Seq<u32>>) -> Seq<u32> {
    if history.contains_key(p.pid) && history[p.pid].len() > 0 {
        history[p.pid]
    } else {
        seq![
            match p.handle_count {
                Some(n) => n,
                None => 0,
            },
        ]
    }
}

/// The GDI and USER objects of a process together, those not measured left out.
pub open spec fn objects(p: ProcessModel) -> int {
    (match p.gdi_objects {
        Some(n) => n as int,
        None => 0,
    }) + (match p.user_objects {
        Some(n) => n as int,
        None => 0,
    })
}

/// A record of the system log from a source, with one of these numbers.
pub open spec fn logged(ev: WindowsEventRecord, source: Seq<char>, ids: Seq<u32>) -> bool {
    ev.channel@ == "System"@ && occurs(source, ev.provider@) && ids.contains(ev.win_event_id)
}

/// A record of the system log from the hardware error source, whatever its number.
pub open spec fn logged_by_whea(ev: WindowsEventRecord) -> bool {
    ev.channel@ == "System"@ && occurs("Microsoft-Windows-WHEA-Logger"@, ev.provider@)
}

/// What a record of the event log tells: a reset of the display driver, a disk error, a crash of a
/// service, or a hardware error by power loss or by the error source; anything else tells nothing.
pub proof fn lemma_what_records_tell(ev: WindowsEventRecord)
    ensures
        ({
            let display = logged(ev, "Display"@, seq![4101]);
            let disk = logged(ev, "disk"@, seq![7, 51, 153]);
            let power = logged(ev, "Microsoft-Windows-Kernel-Power"@, seq![41]);
            let service = logged(ev, "Service Control Manager"@, seq![7031, 7034]);
            let k = told_from(ev, 0);
            &&& k == Some(CauseKind::DriverTimeout) <==> display
            &&& k == Some(CauseKind::DiskIoError) <==> disk
            &&& k == Some(CauseKind::ServiceCrash) <==> service
            &&& k == Some(CauseKind::HardwareError) <==> power || logged_by_whea(ev) && !display && !disk && !service
            &&& k is None <==> !display && !disk && !power && !service && !logged_by_whea(ev)
        }),
{
    reveal_with_fuel(told_from, 9);
    let id = ev.win_event_id;
    let a: Seq<u32> = seq![4101];
    let b: Seq<u32> = seq![7, 51, 153];
    let c: Seq<u32> = seq![41];
    let d: Seq<u32> = seq![7031, 7034];
    assert(a.contains(id) <==> id == 4101) by {
        assert(a[0] == 4101);
    }
    assert(b.contains(id) <==> id == 7 || id == 51 || id == 153) by {
        assert(b[0] == 7 && b[1] == 51 && b[2] == 153);
    }
    assert(c.contains(id) <==> id == 41) by {
        assert(c[0] == 41);
    }
    assert(d.contains(id) <==> id == 7031 || id == 7034) by {
        assert(d[0] == 7031 && d[1] == 7034);
    }
}

/// The records that are kept are those that tell something, in their order.
pub proof fn lemma_telling_records_are_kept(records: Seq<WindowsEventRecord>)
    ensures
        telling_from(records, 0) == records.filter(|r: WindowsEventRecord| told_from(r, 0) is Some),
{
    lemma_telling_rest(records, 0);
    assert(records.skip(0) =~= records);
}

proof fn lemma_telling_rest(records: Seq<WindowsEventRecord>, i: int)
    requires
        0 <= i <= records.len(),
    ensures
        telling_from(records, i) == records.skip(i).filter(|r: WindowsEventRecord| told_from(r, 0) is Some),
    decreases records.len() - i,
{
    let tells = |r: WindowsEventRecord| told_from(r, 0) is Some;
    let rest = records.skip(i);
    if i < records.len() {
        lemma_telling_rest(records, i + 1);
        let one = seq![records[i]];
        assert(rest =~= one + records.skip(i + 1));
        Seq::filter_distributes_over_add(one, records.skip(i + 1), tells);
        reveal(Seq::filter);
        let none = Seq::<WindowsEventRecord>::empty();
        assert(none.filter(tells) =~= none);
        assert(one.drop_last() =~= none);
        assert(none.push(records[i]) =~= one);
        assert(one.filter(tells) =~= if told_from(records[i], 0) is Some {
            one
        } else {
            seq![]
        });
        assert(telling_from(records, i) =~= one.filter(tells) + telling_from(records, i + 1));
    } else {
        reveal(Seq::filter);
        assert(rest =~= seq![]);
        assert(telling_from(records, i) =~= rest.filter(tells));
    }
}

/// The software causes of a stutter: a leak of handles where those of a culprit leak, the hint where
/// those of one are merely many, a leak of objects where a culprit has too many, and what the records
/// tell. The gravest comes first, and none comes twice.
pub proof fn lemma_software_causes_found(
    procs: Seq<ProcessModel>,
    events: Seq<WindowsEventRecord>,
    history: Map<u32, Seq<u32>>,
    limits: LeakLimits,
)
    ensures
        ({
            let r = software_causes(procs, events, history, limits);
            &&& r.contains(CauseKind::ProcessHandleLeak) <==> exists|i: int|
                0 <= i < procs.len() && once_over(judged_counts(#[trigger] procs[i], history), limits.handles) && mean_rose(
                    judged_counts(procs[i], history),
                    limits.handle_growth,
                )
            &&& r.contains(CauseKind::HandleHigh) <==> exists|i: int|
                0 <= i < procs.len() && once_over(judged_counts(#[trigger] procs[i], history), limits.handles) && !mean_rose(
                    judged_counts(procs[i], history),
                    limits.handle_growth,
                )
            &&& r.contains(CauseKind::GdiObjectLeak) <==> exists|i: int|
                0 <= i < procs.len() && objects(#[trigger] procs[i]) > limits.gdi
            &&& forall|k: CauseKind|
                k == CauseKind::DriverTimeout || k == CauseKind::DiskIoError || k == CauseKind::ServiceCrash || k
                    == CauseKind::HardwareError ==> (#[trigger] r.contains(k) <==> exists|i: int|
                    0 <= i < events.len() && told_from(#[trigger] events[i], 0) == Some(k))
            &&& forall|k: CauseKind| #[trigger] r.contains(k) ==> gravity(k) is Some
            &&& forall|i: int, j: int|
                0 <= i < j < r.len() ==> gravity(#[trigger] r[i])->0 < gravity(#[trigger] r[j])->0
        }),
{
    let r = software_causes(procs, events, history, limits);
    lemma_software_causes_ranked(procs, events, history, limits);
    assert forall|k: CauseKind| (#[trigger] gravity(k)) is Some <==> software_kind(k) by {
        lemma_gravity(k);
    }
    assert forall|i: int| 0 <= i < events.len() implies told_from(#[trigger] events[i], 0) != Some(
        CauseKind::ProcessHandleLeak,
    ) && told_from(events[i], 0) != Some(CauseKind::HandleHigh) && told_from(events[i], 0) != Some(
        CauseKind::GdiObjectLeak,
    ) && (told_from(events[i], 0) is Some ==> gravity(told_from(events[i], 0)->0) is Some) by {
        lemma_what_records_tell(events[i]);
    }
    assert forall|i: int| 0 <= i < procs.len() implies {
        let p = #[trigger] procs[i];
        let v = judged_counts(p, history);
        &&& shows(p, history, limits, CauseKind::ProcessHandleLeak) <==> once_over(v, limits.handles) && mean_rose(
            v,
            limits.handle_growth,
        )
        &&& shows(p, history, limits, CauseKind::HandleHigh) <==> once_over(v, limits.handles) && !mean_rose(
            v,
            limits.handle_growth,
        )
        &&& shows(p, history, limits, CauseKind::GdiObjectLeak) <==> objects(p) > limits.gdi
        &&& forall|k: CauseKind| #[trigger] shows(p, history, limits, k) ==> gravity(k) is Some
        &&& forall|k: CauseKind|
            k == CauseKind::DriverTimeout || k == CauseKind::DiskIoError || k == CauseKind::ServiceCrash || k
                == CauseKind::HardwareError ==> !#[trigger] shows(p, history, limits, k)
    } by {
        let p = procs[i];
        lemma_handles_over_the_line(counts_for(history, p.pid), number(p.handle_count), limits.handles, limits.handle_growth);
        assert(judged_counts(p, history) =~= counts_of(counts_for(history, p.pid), number(p.handle_count)));
    }
    assert forall|k: CauseKind| #[trigger] r.contains(k) implies gravity(k) is Some by {
        assert(in_evidence(procs, events, history, limits, k));
    }
    assert forall|i: int, j: int| 0 <= i < j < r.len() implies gravity(#[trigger] r[i])->0 < gravity(#[trigger] r[j])->0 by {
        assert(r.contains(r[i]) && r.contains(r[j]));
        lemma_gravity(r[i]);
        lemma_gravity(r[j]);
    }
    let leak = CauseKind::ProcessHandleLeak;
    let high = CauseKind::HandleHigh;
    let gdi = CauseKind::GdiObjectLeak;
    assert(r.contains(leak) <==> in_evidence(procs, events, history, limits, leak));
    assert(r.contains(high) <==> in_evidence(procs, events, history, limits, high));
    assert(r.contains(gdi) <==> in_evidence(procs, events, history, limits, gdi));
}

/// How grave a software cause is: hardware before drivers, services, disks, handles and objects, with
/// the hint of many handles last.
pub open spec fn gravity(k: CauseKind) -> Option<int> {
    let order = seq![
        CauseKind::HardwareError,
        CauseKind::DriverTimeout,
        CauseKind::ServiceCrash,
        CauseKind::DiskIoError,
        CauseKind::ProcessHandleLeak,
        CauseKind::GdiObjectLeak,
        CauseKind::HandleHigh,
    ];
    if exists|i: int| 0 <= i < 7 && #[trigger] order[i] == k {
        Some(choose|i: int| 0 <= i < 7 && #[trigger] order[i] == k)
    } else {
        None
    }
}

proof fn lemma_gravity(k: CauseKind)
    ensures
        gravity(k) is Some <==> software_kind(k),
        software_kind(k) ==> software_rank(k) is Some && gravity(k)->0 == software_rank(k)->0,
{
    let order = seq![
        CauseKind::HardwareError,
        CauseKind::DriverTimeout,
        CauseKind::ServiceCrash,
        CauseKind::DiskIoError,
        CauseKind::ProcessHandleLeak,
        CauseKind::GdiObjectLeak,
        CauseKind::HandleHigh,
    ];
    assert(order[0] == CauseKind::HardwareError);
    assert(order[1] == CauseKind::DriverTimeout);
    assert(order[2] == CauseKind::ServiceCrash);
    assert(order[3] == CauseKind::DiskIoError);
    assert(order[4] == CauseKind::ProcessHandleLeak);
    assert(order[5] == CauseKind::GdiObjectLeak);
    assert(order[6] == CauseKind::HandleHigh);
}

/// The causes that a monitor concludes for an event go by its own settings: the line and the growth for
/// handles, and the line for objects.
pub proof fn lemma_conclusion_goes_by_settings(m: MonitorModel, e: EventModel, records: Seq<WindowsEventRecord>, k: CauseKind)
    ensures
        ({
            let lines = m.detector.config.lines;
            let r = concluded(m, e, records);
            let found = software_causes(
                e.culprits,
                records,
                m.handles,
                LeakLimits {
                    handles: lines.handle_leak_threshold,
                    handle_growth: lines.handle_leak_growth_threshold,
                    gdi: lines.gdi_leak_threshold,
                },
            );
            r.cause_kinds.contains(k) <==> e.cause_kinds.contains(k) || found.contains(k)
        }),
{
    let found = software_causes(e.culprits, records, m.handles, crate::monitor::leak_limits(m.detector.config));
    crate::software_root_cause::lemma_merging_adds(e, found, k);
}

/// Each sample adds one handle count to each of its processes, behind the earlier ones, and touches no
/// other process.
pub proof fn lemma_counts_gather(m: Map<u32, Seq<u32>>, procs: Seq<ProcessModel>, n: int, pid: u32)
    requires
        0 <= n <= procs.len(),
    ensures
        counts_for(with_counts(m, procs, n), pid) == counts_for(m, pid) + counts_in(procs.take(n), pid),
    decreases n,
{
    if n == 0 {
        assert(procs.take(0) =~= seq![]);
        assert(counts_for(m, pid) + Seq::<u32>::empty() =~= counts_for(m, pid));
    } else {
        lemma_counts_gather(m, procs, n - 1, pid);
        let p = procs[n - 1];
        assert(procs.take(n) =~= procs.take(n - 1).push(p));
        assert(procs.take(n).drop_last() =~= procs.take(n - 1));
        assert(counts_for(with_counts(m, procs, n), pid) =~= counts_for(m, pid) + counts_in(procs.take(n), pid));
    }
}

/// The handle counts of a process in a sample, zero where they were not measured.
pub open spec fn counts_in(procs: Seq<ProcessModel>, pid: u32) -> Seq<u32>
    decreases procs.len(),
{
    if procs.len() == 0 {
        seq![]
    } else {
        let front = counts_in(procs.drop_last(), pid);
        if procs.last().pid == pid {
            front.push(
                match procs.last().handle_count {
                    Some(n) => n,
                    None => 0,
                },
            )
        } else {
            front
        }
    }
}

/// The handles of a process, those not measured left out.
pub open spec fn handles(p: ProcessModel) -> int {
    match p.handle_count {
        Some(n) => n as int,
        None => 0,
    }
}

proof fn lemma_fullest(procs: Seq<ProcessModel>, gdi: bool, n: int)
    requires
        0 <= n <= procs.len(),
    ensures
        match fullest_process(procs, gdi, n) {
            Some(i) => 0 <= i < n && objects_of(procs[i], gdi) > 0 && forall|j: int|
                0 <= j < n ==> objects_of(#[trigger] procs[j], gdi) <= objects_of(procs[i], gdi),
            None => forall|j: int| 0 <= j < n ==> objects_of(#[trigger] procs[j], gdi) == 0,
        },
    decreases n,
{
    if n > 0 {
        lemma_fullest(procs, gdi, n - 1);
    }
}

/// The text of a leak names a culprit that no other exceeds, with its own numbers; that of handles by
/// handles, that of objects by both kinds of objects together. Where no number was measured, no process
/// is named.
pub proof fn lemma_texts_name_the_fullest(procs: Seq<ProcessModel>)
    ensures
        ({
            let leak = software_text(CauseKind::ProcessHandleLeak, procs);
            let high = software_text(CauseKind::HandleHigh, procs);
            let gdi = software_text(CauseKind::GdiObjectLeak, procs);
            &&& (exists|i: int| 0 <= i < procs.len() && handles(#[trigger] procs[i]) > 0) ==> exists|i: int|
                0 <= i < procs.len() && (forall|j: int| 0 <= j < procs.len() ==> handles(#[trigger] procs[j]) <= handles(procs[i]))
                    && leak == "句柄泄漏: "@ + (#[trigger] procs[i]).name + " "@ + decimal(handles(procs[i]) as nat) + " 句柄"@
                    && high == "句柄数偏高: "@ + procs[i].name + " "@ + decimal(handles(procs[i]) as nat) + " 句柄（无增长趋势）"@
            &&& (forall|i: int| 0 <= i < procs.len() ==> handles(#[trigger] procs[i]) == 0) ==> leak
                == "句柄泄漏 (进程句柄数超阈值)"@ && high == "句柄数偏高 (进程句柄数高但无增长)"@
            &&& (exists|i: int| 0 <= i < procs.len() && objects(#[trigger] procs[i]) > 0) ==> exists|i: int|
                0 <= i < procs.len() && (forall|j: int| 0 <= j < procs.len() ==> objects(#[trigger] procs[j]) <= objects(procs[i]))
                    && names_objects(gdi, #[trigger] procs[i])
            &&& (forall|i: int| 0 <= i < procs.len() ==> objects(#[trigger] procs[i]) == 0) ==> gdi
                == "GDI 对象泄漏 (GDI/USER 对象超阈值)"@
        }),
{
    let n = procs.len() as int;
    lemma_fullest(procs, false, n);
    lemma_fullest(procs, true, n);
    assert forall|j: int| 0 <= j < n implies handles(#[trigger] procs[j]) == objects_of(procs[j], false) by {}
    assert forall|j: int| 0 <= j < n implies objects(#[trigger] procs[j]) == objects_of(procs[j], true) by {}
    if exists|i: int| 0 <= i < n && handles(#[trigger] procs[i]) > 0 {
        let i = fullest_process(procs, false, n)->0;
        assert(handles(procs[i]) == number(procs[i].handle_count));
    }
    if exists|i: int| 0 <= i < n && objects(#[trigger] procs[i]) > 0 {
        let i = fullest_process(procs, true, n)->0;
        assert(names_objects(software_text(CauseKind::GdiObjectLeak, procs), procs[i]));
    }
}

/// A text names a process with its objects.
pub open spec fn names_objects(text: Seq<char>, p: ProcessModel) -> bool {
    text == "GDI 对象泄漏: "@ + p.name + " GDI"@ + decimal(
        match p.gdi_objects {
            Some(n) => n as nat,
            None => 0,
        },
    ) + "+USER"@ + decimal(
        match p.user_objects {
            Some(n) => n as nat,
            None => 0,
        },
    )
}

/// A text tells a kind that an event did not have.
pub open spec fn newly_told(e: EventModel, sw: Seq<CauseKind>, text: Seq<char>) -> bool {
    exists|j: int|
        0 <= j < sw.len() && !e.cause_kinds.contains(#[trigger] sw[j]) && text == software_text(sw[j], e.culprits)
}

/// Taking in software causes keeps all that an event told, adds one text for each new kind, puts the
/// software kinds in front, the gravest first, and changes nothing but causes, kinds and main cause.
pub proof fn lemma_merging_keeps(e: EventModel, sw: Seq<CauseKind>)
    ensures
        ({
            let r = merged_event(e, sw);
            let added = r.causes.skip(e.causes.len() as int);
            &&& e.causes.is_prefix_of(r.causes)
            &&& forall|j: int|
                0 <= j < sw.len() && !e.cause_kinds.contains(#[trigger] sw[j]) ==> added.contains(
                    software_text(sw[j], e.culprits),
                )
            &&& forall|i: int| 0 <= i < added.len() ==> newly_told(e, sw, #[trigger] added[i])
            &&& (forall|j: int| 0 <= j < sw.len() ==> e.cause_kinds.contains(#[trigger] sw[j])) ==> r == e
            &&& r == (EventModel { causes: r.causes, cause_kinds: r.cause_kinds, primary_cause: r.primary_cause, ..e })
        }),
{
    let r = merged_event(e, sw);
    let fresh = fresh_kinds(e.cause_kinds, sw, sw.len() as int);
    let words = software_texts(fresh, e.culprits);
    let added = r.causes.skip(e.causes.len() as int);
    lemma_fresh(e.cause_kinds, sw, sw.len() as int);
    assert(added =~= words);
    assert(e.causes =~= r.causes.subrange(0, e.causes.len() as int));
    assert forall|j: int| 0 <= j < sw.len() && !e.cause_kinds.contains(#[trigger] sw[j]) implies added.contains(
        software_text(sw[j], e.culprits),
    ) by {
        assert(fresh.contains(sw[j]));
        let i = choose|i: int| 0 <= i < fresh.len() && fresh[i] == sw[j];
        assert(words[i] == software_text(sw[j], e.culprits));
    }
    assert forall|i: int| 0 <= i < added.len() implies newly_told(e, sw, #[trigger] added[i]) by {
        assert(fresh.contains(fresh[i]));
        let j = choose|j: int| 0 <= j < sw.len() && sw[j] == fresh[i];
        assert(!e.cause_kinds.contains(sw[j]));
    }
    if forall|j: int| 0 <= j < sw.len() ==> e.cause_kinds.contains(#[trigger] sw[j]) {
        if fresh.len() > 0 {
            assert(fresh.contains(fresh[0]));
            let j = choose|j: int| 0 <= j < sw.len() && sw[j] == fresh[0];
            assert(e.cause_kinds.contains(sw[j]));
        }
    }
}

proof fn lemma_fresh(known: Seq<CauseKind>, kinds: Seq<CauseKind>, n: int)
    requires
        0 <= n <= kinds.len(),
    ensures
        forall|k: CauseKind| #[trigger]
            fresh_kinds(known, kinds, n).contains(k) ==> !known.contains(k) && exists|j: int|
                0 <= j < n && #[trigger] kinds[j] == k,
        forall|j: int| 0 <= j < n && !known.contains(#[trigger] kinds[j]) ==> fresh_kinds(known, kinds, n).contains(kinds[j]),
        fresh_kinds(known, kinds, n).no_duplicates(),
    decreases n,
{
    if n > 0 {
        lemma_fresh(known, kinds, n - 1);
        let before = fresh_kinds(known, kinds, n - 1);
        let after = fresh_kinds(known, kinds, n);
        let x = kinds[n - 1];
        assert forall|k: CauseKind| #[trigger] after.contains(k) implies !known.contains(k) && exists|j: int|
            0 <= j < n && #[trigger] kinds[j] == k by {
            let i = choose|i: int| 0 <= i < after.len() && after[i] == k;
            if i < before.len() {
                assert(before[i] == k);
                assert(before.contains(k));
            } else {
                assert(kinds[n - 1] == k);
            }
        }
        assert forall|j: int| 0 <= j < n && !known.contains(#[trigger] kinds[j]) implies after.contains(kinds[j]) by {
            if before.contains(kinds[j]) {
                let i = choose|i: int| 0 <= i < before.len() && before[i] == kinds[j];
                assert(after[i] == kinds[j]);
            } else {
                assert(j == n - 1);
                assert(after[before.len() as int] == x);
            }
        }
        assert forall|i: int, j: int| 0 <= i < after.len() && 0 <= j < after.len() && i != j implies after[i] != after[j] by {
            if i >= before.len() {
                assert(before.contains(before[j]));
            } else if j >= before.len() {
                assert(before.contains(before[i]));
            }
        }
    }
}

/// What a record tells is told in the same words whatever the culprits are.
pub proof fn lemma_words_for_records(procs: Seq<ProcessModel>)
    ensures
        software_text(CauseKind::DriverTimeout, procs) == "显卡驱动 TDR 超时 (Display 4101)"@,
        software_text(CauseKind::ServiceCrash, procs) == "服务崩溃 (SCM 7031/7034)"@,
        software_text(CauseKind::DiskIoError, procs) == "磁盘 IO 错误 (disk 7/51/153)"@,
        software_text(CauseKind::HardwareError, procs) == "硬件错误 (Kernel-Power/WHEA)"@,
{
}

/// Where new software kinds are taken in, the kinds of an event are its software kinds, the gravest first,
/// and behind them its other kinds in their order.
pub proof fn lemma_merged_kinds_stand_in_order(e: EventModel, sw: Seq<CauseKind>, j: int) -> (split: int)
    requires
        forall|i: int| 0 <= i < sw.len() ==> gravity(#[trigger] sw[i]) is Some,
        0 <= j < sw.len(),
        !e.cause_kinds.contains(sw[j]),
    ensures
        ({
            let r = merged_event(e, sw).cause_kinds;
            &&& 0 <= split <= r.len()
            &&& forall|i: int| 0 <= i < split ==> gravity(#[trigger] r[i]) is Some
            &&& forall|a: int, b: int| 0 <= a < b < split ==> gravity(#[trigger] r[a])->0 <= gravity(#[trigger] r[b])->0
            &&& r.skip(split) == e.cause_kinds.filter(|k: CauseKind| gravity(k) is None)
        }),
{
    let n = e.cause_kinds.len() as int;
    let fresh = fresh_kinds(e.cause_kinds, sw, sw.len() as int);
    let kinds = software_kinds(e.cause_kinds, n) + fresh;
    let front = software_taken(e, fresh);
    let back = resource_kinds(e.cause_kinds, n);
    let r = merged_event(e, sw).cause_kinds;
    lemma_fresh(e.cause_kinds, sw, sw.len() as int);
    assert(fresh.len() > 0);
    assert(r == front + back);
    let split = front.len() as int;
    assert(r.skip(split) =~= back);
    assert forall|k: CauseKind| (#[trigger] gravity(k)) is Some <==> software_kind(k) by {
        lemma_gravity(k);
    }
    lemma_other_kinds(e.cause_kinds, n);
    assert(e.cause_kinds.take(n) =~= e.cause_kinds);
    let keys = gravity_keys(kinds);
    lemma_ascending(keys);
    let order = ascending(keys);
    assert forall|i: int| 0 <= i < kinds.len() implies gravity(#[trigger] kinds[i]) is Some by {
        let own = software_kinds(e.cause_kinds, n);
        if i < own.len() {
            lemma_own_kinds(e.cause_kinds, n, i);
        } else {
            assert(fresh.contains(fresh[i - own.len()]));
        }
    }
    assert forall|i: int| 0 <= i < split implies gravity(#[trigger] r[i]) is Some by {
        assert(r[i] == kinds[order[i]]);
    }
    assert forall|a: int, b: int| 0 <= a < b < split implies gravity(#[trigger] r[a])->0 <= gravity(#[trigger] r[b])->0 by {
        assert(r[a] == kinds[order[a]] && r[b] == kinds[order[b]]);
        assert(keys[order[a]] <= keys[order[b]]);
        lemma_gravity(r[a]);
        lemma_gravity(r[b]);
    }
    split
}

proof fn lemma_own_kinds(kinds: Seq<CauseKind>, n: int, i: int)
    requires
        0 <= n <= kinds.len(),
        0 <= i < software_kinds(kinds, n).len(),
    ensures
        software_kind(software_kinds(kinds, n)[i]),
    decreases n,
{
    if n > 0 && i < software_kinds(kinds, n - 1).len() {
        lemma_own_kinds(kinds, n - 1, i);
    }
}

proof fn lemma_other_kinds(kinds: Seq<CauseKind>, n: int)
    requires
        0 <= n <= kinds.len(),
        forall|k: CauseKind| (#[trigger] gravity(k)) is Some <==> software_kind(k),
    ensures
        resource_kinds(kinds, n) == kinds.take(n).filter(|k: CauseKind| gravity(k) is None),
    decreases n,
{
    reveal(Seq::filter);
    let other = |k: CauseKind| gravity(k) is None;
    if n == 0 {
        assert(kinds.take(0).filter(other) =~= seq![]);
    } else {
        lemma_other_kinds(kinds, n - 1);
        assert(kinds.take(n).drop_last() =~= kinds.take(n - 1));
        assert(kinds.take(n).last() == kinds[n - 1]);
    }
}

} // verus!
