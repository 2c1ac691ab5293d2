//! Root causes in software, drivers and hardware.

use crate::cause::{kind_name, software_kind, software_rank, CauseKind, EventModel, StutterEvent};
use crate::order::{ascending, ascending_order, lemma_ascending, lemma_position, positions, reordered};
use crate::text::{contains, decimal, decimal_text, occurs, push_text, same_text};
use crate::types::{briefs, ProcessBrief, ProcessModel};
use std::collections::HashMap;
use vstd::prelude::*;

verus! {

/// A record of the event log.
#[derive(Debug)]
pub struct WindowsEventRecord {
    pub channel: String,
    pub provider: String,
    pub win_event_id: u32,
    pub level: String,
    pub message: String,
    /// The RFC 3339 text of its moment.
    pub ts: String,
}

/// How many entries the list of telling events has.
pub const WHITELIST_COUNT: usize = 8;

/// An entry of the list of telling events: part of the provider's name, an event id (zero for any),
/// and what it tells. All are in the channel `System`.
pub open spec fn telling(i: int) -> (Seq<char>, u32, CauseKind) {
    if i == 0 {
        ("Display"@, 4101, CauseKind::DriverTimeout)
    } else if i == 1 {
        ("disk"@, 7, CauseKind::DiskIoError)
    } else if i == 2 {
        ("disk"@, 51, CauseKind::DiskIoError)
    } else if i == 3 {
        ("disk"@, 153, CauseKind::DiskIoError)
    } else if i == 4 {
        ("Microsoft-Windows-Kernel-Power"@, 41, CauseKind::HardwareError)
    } else if i == 5 {
        ("Service Control Manager"@, 7031, CauseKind::ServiceCrash)
    } else if i == 6 {
        ("Service Control Manager"@, 7034, CauseKind::ServiceCrash)
    } else {
        ("Microsoft-Windows-WHEA-Logger"@, 0, CauseKind::HardwareError)
    }
}

fn telling_entry(i: usize) -> (r: (&'static str, u32, CauseKind))
    requires
        i < WHITELIST_COUNT,
    ensures
        (r.0@, r.1, r.2) == telling(i as int),
{
    match i {
        0 => ("Display", 4101, CauseKind::DriverTimeout),
        1 => ("disk", 7, CauseKind::DiskIoError),
        2 => ("disk", 51, CauseKind::DiskIoError),
        3 => ("disk", 153, CauseKind::DiskIoError),
        4 => ("Microsoft-Windows-Kernel-Power", 41, CauseKind::HardwareError),
        5 => ("Service Control Manager", 7031, CauseKind::ServiceCrash),
        6 => ("Service Control Manager", 7034, CauseKind::ServiceCrash),
        _ => ("Microsoft-Windows-WHEA-Logger", 0, CauseKind::HardwareError),
    }
}

/// Whether an event fits an entry of the list.
pub open spec fn fits(ev: WindowsEventRecord, i: int) -> bool {
    ev.channel@ == "System"@ && occurs(telling(i).0, ev.provider@) && (telling(i).1 == 0 || ev.win_event_id == telling(i).1)
}

/// What an event tells by the first entry that it fits, from `i` on.
pub open spec fn told_from(ev: WindowsEventRecord, i: int) -> Option<CauseKind>
    decreases WHITELIST_COUNT - i,
{
    if i >= WHITELIST_COUNT {
        None
    } else if fits(ev, i) {
        Some(telling(i).2)
    } else {
        told_from(ev, i + 1)
    }
}

/// What an event tells of the cause of a stutter, if anything.
pub fn map_win_event(ev: &WindowsEventRecord) -> (k: Option<CauseKind>)
    ensures
        k == told_from(*ev, 0),
{
    let system = same_text(ev.channel.as_str(), "System");
    let mut i: usize = 0;
    while i < WHITELIST_COUNT
        invariant
            i <= WHITELIST_COUNT,
            system == (ev.channel@ == "System"@),
            told_from(*ev, i as int) == told_from(*ev, 0),
        decreases WHITELIST_COUNT - i,
    {
        let (part, id, kind) = telling_entry(i);
        if system && contains(ev.provider.as_str(), part) && (id == 0 || ev.win_event_id == id) {
            return Some(kind);
        }
        i += 1;
    }
    None
}

/// Whether an event is worth keeping.
pub fn is_whitelisted_win_event(ev: &WindowsEventRecord) -> (r: bool)
    ensures
        r == (told_from(*ev, 0) is Some),
{
    map_win_event(ev).is_some()
}

/// The records from position `i` on that are worth keeping.
pub open spec fn telling_from(records: Seq<WindowsEventRecord>, i: int) -> Seq<WindowsEventRecord>
    decreases records.len() - i,
{
    if i >= records.len() {
        seq![]
    } else if told_from(records[i], 0) is Some {
        seq![records[i]] + telling_from(records, i + 1)
    } else {
        telling_from(records, i + 1)
    }
}

/// The records that are worth keeping, in their order.
pub fn telling_records(records: Vec<WindowsEventRecord>) -> (r: Vec<WindowsEventRecord>)
    ensures
        r@ == telling_from(records@, 0),
{
    let ghost all = records@;
    let mut rest = records;
    let mut turned: Vec<WindowsEventRecord> = Vec::new();
    proof {
        assert(all.take(all.len() as int) =~= all);
        assert(turned@.reverse() =~= seq![]);
    }
    while rest.len() > 0
        invariant
            rest@.len() <= all.len(),
            rest@ == all.take(rest@.len() as int),
            turned@.reverse() == telling_from(all, rest@.len() as int),
        decreases rest@.len(),
    {
        if let Some(ev) = rest.pop() {
            proof {
                assert(rest@ =~= all.take(rest@.len() as int));
            }
            if is_whitelisted_win_event(&ev) {
                let ghost before = turned@;
                turned.push(ev);
                proof {
                    assert(turned@.reverse() =~= seq![ev] + before.reverse());
                }
            }
        }
    }
    let ghost kept = turned@.reverse();
    let mut r: Vec<WindowsEventRecord> = Vec::new();
    proof {
        assert(r@ + turned@.reverse() =~= kept);
    }
    while turned.len() > 0
        invariant
            r@ + turned@.reverse() == kept,
        decreases turned@.len(),
    {
        let ghost before = turned@.reverse();
        if let Some(ev) = turned.pop() {
            proof {
                assert(before =~= seq![ev] + turned@.reverse());
                assert(r@.push(ev) + turned@.reverse() =~= r@ + before);
            }
            r.push(ev);
        }
    }
    proof {
        assert(r@ =~= kept);
    }
    r
}

/// What the handles of a process show.
#[derive(Clone, Copy, Debug, PartialEq, Eq, Structural)]
pub enum HandleTrend {
    /// Not many.
    Normal,
    /// Many, but not growing.
    High,
    /// Growing.
    Leak,
}

/// The sum of the values from `from` to `to`.
pub open spec fn sum_range(v: Seq<u32>, from: int, to: int) -> int
    decreases to - from,
{
    if to <= from {
        0
    } else {
        sum_range(v, from, to - 1) + v[to - 1]
    }
}

/// Some value is above the threshold.
pub open spec fn any_above(v: Seq<u32>, threshold: u32) -> bool {
    exists|i: int| 0 <= i < v.len() && #[trigger] v[i] > threshold
}

/// The mean of the second half exceeds that of the first by at least `growth`.
pub open spec fn grows(v: Seq<u32>, growth: u32) -> bool {
    let half = v.len() as int / 2;
    let n1 = half;
    let n2 = v.len() - half;
    sum_range(v, half, v.len() as int) * n1 - sum_range(v, 0, half) * n2 >= growth * n1 * n2
}

/// The counts that are looked at: those of the window, or the present one where there are none.
pub open spec fn counts_of(history: Seq<u32>, current: u32) -> Seq<u32> {
    if history.len() == 0 {
        seq![current]
    } else {
        history
    }
}

/// What handle counts show: nothing below the threshold, a leak where they grow, else that they are
/// many. A single count shows no growth.
pub open spec fn trend_of(v: Seq<u32>, abs_threshold: u32, growth_threshold: u32) -> HandleTrend {
    if !any_above(v, abs_threshold) {
        HandleTrend::Normal
    } else if v.len() >= 2 && grows(v, growth_threshold) {
        HandleTrend::Leak
    } else {
        HandleTrend::High
    }
}

fn sum_of(v: &[u32], from: usize, to: usize) -> (s: u128)
    requires
        from <= to <= v@.len(),
    ensures
        s == sum_range(v@, from as int, to as int),
        s <= (to - from) * 0xffff_ffff,
{
    let mut s: u128 = 0;
    let mut i: usize = from;
    while i < to
        invariant
            from <= i <= to <= v@.len(),
            s == sum_range(v@, from as int, i as int),
            s <= (i - from) * 0xffff_ffff,
        decreases to - i,
    {
        s = s + v[i] as u128;
        i += 1;
    }
    s
}

/// Fractions compare by their whole parts, then by what remains.
proof fn lemma_fractions(t: int, n2: int, s: int, n1: int)
    requires
        t >= 0,
        s >= 0,
        n1 > 0,
        n2 > 0,
    ensures
        t * n1 >= s * n2 <==> (t / n2 > s / n1 || t / n2 == s / n1 && (t % n2) * n1 >= (s % n1) * n2),
{
    let q1 = t / n2;
    let r1 = t % n2;
    let q2 = s / n1;
    let r2 = s % n1;
    assert(t == q1 * n2 + r1 && 0 <= r1 < n2) by (nonlinear_arith)
        requires
            q1 == t / n2,
            r1 == t % n2,
            n2 > 0,
    ;
    assert(s == q2 * n1 + r2 && 0 <= r2 < n1) by (nonlinear_arith)
        requires
            q2 == s / n1,
            r2 == s % n1,
            n1 > 0,
    ;
    let k = n1 * n2;
    assert(t * n1 == q1 * k + r1 * n1) by (nonlinear_arith)
        requires
            t == q1 * n2 + r1,
            k == n1 * n2,
    ;
    assert(s * n2 == q2 * k + r2 * n2) by (nonlinear_arith)
        requires
            s == q2 * n1 + r2,
            k == n1 * n2,
    ;
    assert(0 <= r1 * n1 <= k - n1) by (nonlinear_arith)
        requires
            0 <= r1 <= n2 - 1,
            n1 > 0,
            k == n1 * n2,
    ;
    assert(0 <= r2 * n2 <= k - n2) by (nonlinear_arith)
        requires
            0 <= r2 <= n1 - 1,
            n2 > 0,
            k == n1 * n2,
    ;
    if q1 > q2 {
        assert(q1 * k >= q2 * k + k) by (nonlinear_arith)
            requires
                q1 >= q2 + 1,
                k > 0,
        ;
    } else if q1 < q2 {
        assert(q2 * k >= q1 * k + k) by (nonlinear_arith)
            requires
                q2 >= q1 + 1,
                k > 0,
        ;
    }
}

fn grew(v: &[u32], growth: u32) -> (r: bool)
    requires
        v@.len() >= 2,
    ensures
        r == grows(v@, growth),
{
    let n: usize = v.len();
    let half: usize = n / 2;
    let first = sum_of(v, 0, half);
    let second = sum_of(v, half, n);
    let n1: u128 = half as u128;
    let n2: u128 = (n - half) as u128;
    proof {
        assert(growth * n2 <= 0xffff_ffff * n2) by (nonlinear_arith)
            requires
                growth <= 0xffff_ffff,
                n2 >= 0,
        ;
    }
    let owed: u128 = growth as u128 * n2;
    proof {
        let s = second as int;
        let g = growth as int;
        assert(s * n1 - first * n2 >= g * n1 * n2 <==> (s - g * n2) * n1 >= first * n2) by (nonlinear_arith);
    }
    if second < owed {
        proof {
            let t = second - owed;
            assert(t * n1 < 0) by (nonlinear_arith)
                requires
                    t < 0,
                    n1 > 0,
            ;
            assert(first * n2 >= 0) by (nonlinear_arith)
                requires
                    first >= 0,
                    n2 > 0,
            ;
        }
        return false;
    }
    let t: u128 = second - owed;
    proof {
        lemma_fractions(t as int, n2 as int, first as int, n1 as int);
        assert((t % n2) * n1 <= 0xffff_ffff_ffff_ffff * 0xffff_ffff_ffff_ffff) by (nonlinear_arith)
            requires
                t % n2 <= 0xffff_ffff_ffff_ffff,
                n1 <= 0xffff_ffff_ffff_ffff,
                n1 >= 0,
                t % n2 >= 0,
        ;
        assert((first % n1) * n2 <= 0xffff_ffff_ffff_ffff * 0xffff_ffff_ffff_ffff) by (nonlinear_arith)
            requires
                first % n1 <= 0xffff_ffff_ffff_ffff,
                n2 <= 0xffff_ffff_ffff_ffff,
                n2 >= 0,
                first % n1 >= 0,
        ;
    }
    t / n2 > first / n1 || t / n2 == first / n1 && (t % n2) * n1 >= (first % n1) * n2
}

/// What the handle counts of a process over a stutter show. `current` stands in where none were
/// taken.
pub fn handle_trend(history: &[u32], current: u32, abs_threshold: u32, growth_threshold: u32) -> (r: HandleTrend)
    ensures
        r == trend_of(counts_of(history@, current), abs_threshold, growth_threshold),
{
    if history.len() == 0 {
        proof {
            let v = counts_of(history@, current);
            assert(v[0] == current);
        }
        return if current > abs_threshold {
            HandleTrend::High
        } else {
            HandleTrend::Normal
        };
    }
    let mut over = false;
    let mut i: usize = 0;
    while i < history.len()
        invariant
            i <= history@.len(),
            over == exists|j: int| 0 <= j < i && #[trigger] history@[j] > abs_threshold,
        decreases history@.len() - i,
    {
        if history[i] > abs_threshold {
            over = true;
        }
        i += 1;
    }
    if !over {
        HandleTrend::Normal
    } else if history.len() >= 2 && grew(history, growth_threshold) {
        HandleTrend::Leak
    } else {
        HandleTrend::High
    }
}

/// The handle counts of processes over a stutter.
pub open spec fn count_lists(m: Map<u32, Vec<u32>>) -> Map<u32, Seq<u32>> {
    m.map_values(|v: Vec<u32>| v@)
}

/// The counts of a process; none where it was not seen.
pub open spec fn counts_for(m: Map<u32, Seq<u32>>, pid: u32) -> Seq<u32> {
    if m.contains_key(pid) {
        m[pid]
    } else {
        seq![]
    }
}

/// Handle counts with those of the first `n` processes of one more sample.
pub open spec fn with_counts(m: Map<u32, Seq<u32>>, procs: Seq<ProcessModel>, n: int) -> Map<u32, Seq<u32>>
    decreases n,
{
    if n <= 0 {
        m
    } else {
        let before = with_counts(m, procs, n - 1);
        let p = procs[n - 1];
        before.insert(p.pid, counts_for(before, p.pid).push(number(p.handle_count)))
    }
}

/// A measured number, zero where it was not measured.
pub open spec fn number(n: Option<u32>) -> u32 {
    match n {
        Some(x) => x,
        None => 0,
    }
}

fn measured(n: Option<u32>) -> (r: u32)
    ensures
        r == number(n),
{
    match n {
        Some(x) => x,
        None => 0,
    }
}

/// Notes the handle counts of the top processes of a sample.
pub fn record_handles(history: &mut HashMap<u32, Vec<u32>>, procs: &Vec<ProcessBrief>)
    ensures
        count_lists(final(history)@) == with_counts(count_lists(old(history)@), briefs(procs@), procs@.len() as int),
{
    broadcast use vstd::std_specs::hash::group_hash_axioms;

    let ghost start = count_lists(history@);
    let mut i: usize = 0;
    while i < procs.len()
        invariant
            i <= procs@.len(),
            count_lists(history@) == with_counts(start, briefs(procs@), i as int),
        decreases procs@.len() - i,
    {
        let ghost before = history@;
        let pid = procs[i].pid;
        let mut counts: Vec<u32> = match history.remove(&pid) {
            Some(v) => v,
            None => Vec::new(),
        };
        proof {
            assert(counts@ =~= counts_for(count_lists(before), pid));
        }
        counts.push(measured(procs[i].handle_count));
        let ghost list = counts@;
        history.insert(pid, counts);
        proof {
            assert(briefs(procs@)[i as int] == procs@[i as int]@);
            assert(count_lists(history@) =~= count_lists(before).insert(pid, list));
        }
        i += 1;
    }
}

/// A list of kinds with one more, unless it is there already.
pub open spec fn once(kinds: Seq<CauseKind>, k: CauseKind) -> Seq<CauseKind> {
    if kinds.contains(k) {
        kinds
    } else {
        kinds.push(k)
    }
}

/// The thresholds of leaks.
#[derive(Clone, Copy, Debug, PartialEq, Eq)]
pub struct LeakLimits {
    pub handles: u32,
    pub handle_growth: u32,
    pub gdi: u32,
}

/// What a culprit's own numbers show, added to kinds already found.
pub open spec fn shown_by(kinds: Seq<CauseKind>, p: ProcessModel, history: Map<u32, Seq<u32>>, limits: LeakLimits) -> Seq<CauseKind> {
    let handles = match trend_of(
        counts_of(counts_for(history, p.pid), number(p.handle_count)),
        limits.handles,
        limits.handle_growth,
    ) {
        HandleTrend::Leak => once(kinds, CauseKind::ProcessHandleLeak),
        HandleTrend::High => once(kinds, CauseKind::HandleHigh),
        HandleTrend::Normal => kinds,
    };
    if number(p.gdi_objects) + number(p.user_objects) > limits.gdi {
        once(handles, CauseKind::GdiObjectLeak)
    } else {
        handles
    }
}

/// What the first `n` culprits show.
pub open spec fn shown_upto(procs: Seq<ProcessModel>, history: Map<u32, Seq<u32>>, limits: LeakLimits, n: int) -> Seq<CauseKind>
    decreases n,
{
    if n <= 0 {
        seq![]
    } else {
        shown_by(shown_upto(procs, history, limits, n - 1), procs[n - 1], history, limits)
    }
}

/// What the first `n` events tell, added to kinds already found.
pub open spec fn told_upto(kinds: Seq<CauseKind>, events: Seq<WindowsEventRecord>, n: int) -> Seq<CauseKind>
    decreases n,
{
    if n <= 0 {
        kinds
    } else {
        let before = told_upto(kinds, events, n - 1);
        match told_from(events[n - 1], 0) {
            Some(k) => once(before, k),
            None => before,
        }
    }
}

/// The keys of software kinds: the gravest first.
pub open spec fn gravity_keys(kinds: Seq<CauseKind>) -> Seq<i128> {
    Seq::new(
        kinds.len(),
        |i: int|
            match software_rank(kinds[i]) {
                Some(r) => r as i128,
                None => 99,
            },
    )
}

/// Kinds by gravity, equal ones as they came.
pub open spec fn by_gravity(kinds: Seq<CauseKind>) -> Seq<CauseKind> {
    reordered(kinds, ascending(gravity_keys(kinds)))
}

/// The software causes of a stutter, the gravest first.
pub open spec fn software_causes(
    procs: Seq<ProcessModel>,
    events: Seq<WindowsEventRecord>,
    history: Map<u32, Seq<u32>>,
    limits: LeakLimits,
) -> Seq<CauseKind> {
    by_gravity(told_upto(shown_upto(procs, history, limits, procs.len() as int), events, events.len() as int))
}

fn holds_kind(kinds: &Vec<CauseKind>, k: CauseKind) -> (r: bool)
    ensures
        r == kinds@.contains(k),
{
    let mut i: usize = 0;
    while i < kinds.len()
        invariant
            i <= kinds@.len(),
            forall|j: int| 0 <= j < i ==> kinds@[j] != k,
        decreases kinds@.len() - i,
    {
        if kinds[i] == k {
            proof {
                assert(kinds@[i as int] == k);
            }
            return true;
        }
        i += 1;
    }
    false
}

fn push_once(kinds: &mut Vec<CauseKind>, k: CauseKind)
    ensures
        final(kinds)@ == once(old(kinds)@, k),
{
    if !holds_kind(kinds, k) {
        kinds.push(k);
    }
}

fn sort_by_gravity(kinds: &Vec<CauseKind>) -> (r: Vec<CauseKind>)
    ensures
        r@ == by_gravity(kinds@),
{
    let ghost want = gravity_keys(kinds@);
    let mut keys: Vec<i128> = Vec::new();
    let mut i: usize = 0;
    while i < kinds.len()
        invariant
            i <= kinds@.len(),
            want == gravity_keys(kinds@),
            keys@ == want.take(i as int),
        decreases kinds@.len() - i,
    {
        let key: i128 = match kinds[i].software_priority() {
            Some(r) => r as i128,
            None => 99,
        };
        keys.push(key);
        i += 1;
        proof {
            assert(keys@ =~= want.take(i as int));
        }
    }
    proof {
        assert(keys@ =~= want);
    }
    let order = ascending_order(&keys);
    let ghost whole = reordered(kinds@, positions(order@));
    let mut r: Vec<CauseKind> = Vec::new();
    let mut j: usize = 0;
    while j < order.len()
        invariant
            j <= order@.len(),
            forall|i: int| 0 <= i < order@.len() ==> #[trigger] order@[i] < kinds@.len(),
            whole == reordered(kinds@, positions(order@)),
            r@ == whole.take(j as int),
        decreases order@.len() - j,
    {
        r.push(kinds[order[j]]);
        j += 1;
        proof {
            assert(r@ =~= whole.take(j as int));
        }
    }
    proof {
        assert(r@ =~= whole);
    }
    r
}

/// The software causes of a stutter: leaks that its culprits show and what the event log tells,
/// each kind once, the gravest first.
pub fn enrich_software_causes(
    culprits: &Vec<ProcessBrief>,
    win_events: &Vec<WindowsEventRecord>,
    handle_history: &HashMap<u32, Vec<u32>>,
    handle_leak_threshold: u32,
    handle_growth_threshold: u32,
    gdi_leak_threshold: u32,
) -> (r: Vec<CauseKind>)
    ensures
        r@ == software_causes(
            briefs(culprits@),
            win_events@,
            count_lists(handle_history@),
            (LeakLimits {
                handles: handle_leak_threshold,
                handle_growth: handle_growth_threshold,
                gdi: gdi_leak_threshold,
            }),
        ),
{
    broadcast use vstd::std_specs::hash::group_hash_axioms;

    let limits = LeakLimits {
        handles: handle_leak_threshold,
        handle_growth: handle_growth_threshold,
        gdi: gdi_leak_threshold,
    };
    let ghost procs = briefs(culprits@);
    let ghost history = count_lists(handle_history@);
    let mut kinds: Vec<CauseKind> = Vec::new();
    let mut i: usize = 0;
    proof {
        assert(kinds@ =~= seq![]);
    }
    while i < culprits.len()
        invariant
            i <= culprits@.len(),
            procs == briefs(culprits@),
            history == count_lists(handle_history@),
            kinds@ == shown_upto(procs, history, limits, i as int),
        decreases culprits@.len() - i,
    {
        let p = &culprits[i];
        proof {
            assert(procs[i as int] == p@);
        }
        let current = measured(p.handle_count);
        let trend = match handle_history.get(&p.pid) {
            Some(v) => handle_trend(v.as_slice(), current, limits.handles, limits.handle_growth),
            None => {
                let none: Vec<u32> = Vec::new();
                proof {
                    assert(none@ =~= counts_for(history, p.pid));
                }
                handle_trend(none.as_slice(), current, limits.handles, limits.handle_growth)
            },
        };
        match trend {
            HandleTrend::Leak => push_once(&mut kinds, CauseKind::ProcessHandleLeak),
            HandleTrend::High => push_once(&mut kinds, CauseKind::HandleHigh),
            HandleTrend::Normal => {},
        }
        let objects: u64 = measured(p.gdi_objects) as u64 + measured(p.user_objects) as u64;
        if objects > limits.gdi as u64 {
            push_once(&mut kinds, CauseKind::GdiObjectLeak);
        }
        i += 1;
    }
    let ghost shown = kinds@;
    let mut n: usize = 0;
    while n < win_events.len()
        invariant
            n <= win_events@.len(),
            kinds@ == told_upto(shown, win_events@, n as int),
        decreases win_events@.len() - n,
    {
        if let Some(k) = map_win_event(&win_events[n]) {
            push_once(&mut kinds, k);
        }
        n += 1;
    }
    sort_by_gravity(&kinds)
}

/// How many objects of the kind that leaks a process has.
pub open spec fn objects_of(p: ProcessModel, gdi: bool) -> int {
    if gdi {
        number(p.gdi_objects) + number(p.user_objects)
    } else {
        number(p.handle_count) as int
    }
}

/// The index of the last of those with most objects among the first `n` processes, if any has one.
pub open spec fn fullest_process(procs: Seq<ProcessModel>, gdi: bool, n: int) -> Option<int>
    decreases n,
{
    if n <= 0 {
        None
    } else {
        let before = fullest_process(procs, gdi, n - 1);
        let here = objects_of(procs[n - 1], gdi);
        if here == 0 {
            before
        } else {
            match before {
                Some(b) => if here >= objects_of(procs[b], gdi) {
                    Some(n - 1)
                } else {
                    before
                },
                None => Some(n - 1),
            }
        }
    }
}

/// How a software cause is told.
pub open spec fn software_text(kind: CauseKind, procs: Seq<ProcessModel>) -> Seq<char> {
    match kind {
        CauseKind::HandleHigh => match fullest_process(procs, false, procs.len() as int) {
            Some(i) => "句柄数偏高: "@ + procs[i].name + " "@ + decimal(number(procs[i].handle_count) as nat)
                + " 句柄（无增长趋势）"@,
            None => "句柄数偏高 (进程句柄数高但无增长)"@,
        },
        CauseKind::ProcessHandleLeak => match fullest_process(procs, false, procs.len() as int) {
            Some(i) => "句柄泄漏: "@ + procs[i].name + " "@ + decimal(number(procs[i].handle_count) as nat) + " 句柄"@,
            None => "句柄泄漏 (进程句柄数超阈值)"@,
        },
        CauseKind::GdiObjectLeak => match fullest_process(procs, true, procs.len() as int) {
            Some(i) => "GDI 对象泄漏: "@ + procs[i].name + " GDI"@ + decimal(number(procs[i].gdi_objects) as nat)
                + "+USER"@ + decimal(number(procs[i].user_objects) as nat),
            None => "GDI 对象泄漏 (GDI/USER 对象超阈值)"@,
        },
        CauseKind::DriverTimeout => "显卡驱动 TDR 超时 (Display 4101)"@,
        CauseKind::ServiceCrash => "服务崩溃 (SCM 7031/7034)"@,
        CauseKind::DiskIoError => "磁盘 IO 错误 (disk 7/51/153)"@,
        CauseKind::HardwareError => "硬件错误 (Kernel-Power/WHEA)"@,
        _ => kind_name(kind),
    }
}

fn find_fullest(procs: &Vec<ProcessBrief>, gdi: bool) -> (r: Option<usize>)
    ensures
        match r {
            Some(i) => i < procs@.len() && fullest_process(briefs(procs@), gdi, procs@.len() as int) == Some(i as int),
            None => fullest_process(briefs(procs@), gdi, procs@.len() as int) is None,
        },
{
    let ghost ps = briefs(procs@);
    let mut best: Option<usize> = None;
    let mut most: u64 = 0;
    let mut i: usize = 0;
    while i < procs.len()
        invariant
            i <= procs@.len(),
            ps == briefs(procs@),
            match best {
                Some(b) => b < i && fullest_process(ps, gdi, i as int) == Some(b as int) && most == objects_of(
                    ps[b as int],
                    gdi,
                ),
                None => fullest_process(ps, gdi, i as int) is None,
            },
        decreases procs@.len() - i,
    {
        let p = &procs[i];
        proof {
            assert(ps[i as int] == p@);
        }
        let here: u64 = if gdi {
            measured(p.gdi_objects) as u64 + measured(p.user_objects) as u64
        } else {
            measured(p.handle_count) as u64
        };
        if here > 0 && (best.is_none() || here >= most) {
            best = Some(i);
            most = here;
        }
        i += 1;
    }
    best
}

/// How a software cause is told, with the process that has most of what leaks.
pub fn software_cause_text(kind: CauseKind, culprits: &Vec<ProcessBrief>) -> (s: String)
    ensures
        s@ == software_text(kind, briefs(culprits@)),
{
    match kind {
        CauseKind::HandleHigh => match find_fullest(culprits, false) {
            Some(i) => {
                let mut s = String::from_str("句柄数偏高: ");
                s.append(culprits[i].name.as_str());
                s.append(" ");
                s.append(decimal_text(measured(culprits[i].handle_count) as u64).as_str());
                s.append(" 句柄（无增长趋势）");
                s
            },
            None => String::from_str("句柄数偏高 (进程句柄数高但无增长)"),
        },
        CauseKind::ProcessHandleLeak => match find_fullest(culprits, false) {
            Some(i) => {
                let mut s = String::from_str("句柄泄漏: ");
                s.append(culprits[i].name.as_str());
                s.append(" ");
                s.append(decimal_text(measured(culprits[i].handle_count) as u64).as_str());
                s.append(" 句柄");
                s
            },
            None => String::from_str("句柄泄漏 (进程句柄数超阈值)"),
        },
        CauseKind::GdiObjectLeak => match find_fullest(culprits, true) {
            Some(i) => {
                let mut s = String::from_str("GDI 对象泄漏: ");
                s.append(culprits[i].name.as_str());
                s.append(" GDI");
                s.append(decimal_text(measured(culprits[i].gdi_objects) as u64).as_str());
                s.append("+USER");
                s.append(decimal_text(measured(culprits[i].user_objects) as u64).as_str());
                s
            },
            None => String::from_str("GDI 对象泄漏 (GDI/USER 对象超阈值)"),
        },
        CauseKind::DriverTimeout => String::from_str("显卡驱动 TDR 超时 (Display 4101)"),
        CauseKind::ServiceCrash => String::from_str("服务崩溃 (SCM 7031/7034)"),
        CauseKind::DiskIoError => String::from_str("磁盘 IO 错误 (disk 7/51/153)"),
        CauseKind::HardwareError => String::from_str("硬件错误 (Kernel-Power/WHEA)"),
        _ => String::from_str(kind.name()),
    }
}

/// The first `n` kinds that are not known already, each once.
pub open spec fn fresh_kinds(known: Seq<CauseKind>, kinds: Seq<CauseKind>, n: int) -> Seq<CauseKind>
    decreases n,
{
    if n <= 0 {
        seq![]
    } else {
        let before = fresh_kinds(known, kinds, n - 1);
        if known.contains(kinds[n - 1]) {
            before
        } else {
            once(before, kinds[n - 1])
        }
    }
}

/// The texts of kinds.
pub open spec fn software_texts(kinds: Seq<CauseKind>, procs: Seq<ProcessModel>) -> Seq<Seq<char>> {
    Seq::new(kinds.len(), |i: int| software_text(kinds[i], procs))
}

/// The first `n` kinds that come from resources.
pub open spec fn resource_kinds(kinds: Seq<CauseKind>, n: int) -> Seq<CauseKind>
    decreases n,
{
    if n <= 0 {
        seq![]
    } else if software_kind(kinds[n - 1]) {
        resource_kinds(kinds, n - 1)
    } else {
        resource_kinds(kinds, n - 1).push(kinds[n - 1])
    }
}

/// The first `n` kinds that come from software.
pub open spec fn software_kinds(kinds: Seq<CauseKind>, n: int) -> Seq<CauseKind>
    decreases n,
{
    if n <= 0 {
        seq![]
    } else if software_kind(kinds[n - 1]) {
        software_kinds(kinds, n - 1).push(kinds[n - 1])
    } else {
        software_kinds(kinds, n - 1)
    }
}

/// A software kind that can be the main cause: the hint of many handles cannot.
pub open spec fn can_lead(k: CauseKind) -> bool {
    software_kind(k) && k != CauseKind::HandleHigh
}

/// The first kind, from `i` on, that can be the main cause.
pub open spec fn main_from(kinds: Seq<CauseKind>, i: int) -> Option<CauseKind>
    decreases kinds.len() - i,
{
    if i >= kinds.len() {
        None
    } else if can_lead(kinds[i]) {
        Some(kinds[i])
    } else {
        main_from(kinds, i + 1)
    }
}

/// The software kinds of an event once new ones are taken in, the gravest first.
pub open spec fn software_taken(e: EventModel, fresh: Seq<CauseKind>) -> Seq<CauseKind> {
    by_gravity(software_kinds(e.cause_kinds, e.cause_kinds.len() as int) + fresh)
}

/// An event with software causes: all its software kinds first, the gravest ahead, then the causes by
/// resources. The gravest software kind that can lead is the main cause; without one the main cause
/// stays.
pub open spec fn merged_event(e: EventModel, sw: Seq<CauseKind>) -> EventModel {
    let fresh = fresh_kinds(e.cause_kinds, sw, sw.len() as int);
    if fresh.len() == 0 {
        e
    } else {
        let software = software_taken(e, fresh);
        EventModel {
            causes: e.causes + software_texts(fresh, e.culprits),
            cause_kinds: software + resource_kinds(e.cause_kinds, e.cause_kinds.len() as int),
            primary_cause: match main_from(software, 0) {
                Some(k) => Some(k),
                None => e.primary_cause,
            },
            ..e
        }
    }
}

fn list_fresh(known: &Vec<CauseKind>, kinds: &Vec<CauseKind>) -> (r: Vec<CauseKind>)
    ensures
        r@ == fresh_kinds(known@, kinds@, kinds@.len() as int),
{
    let mut r: Vec<CauseKind> = Vec::new();
    let mut i: usize = 0;
    proof {
        assert(r@ =~= seq![]);
    }
    while i < kinds.len()
        invariant
            i <= kinds@.len(),
            r@ == fresh_kinds(known@, kinds@, i as int),
        decreases kinds@.len() - i,
    {
        if !holds_kind(known, kinds[i]) {
            push_once(&mut r, kinds[i]);
        }
        i += 1;
    }
    r
}

/// Takes software causes into an event.
pub fn merge_software_causes(ev: StutterEvent, sw: Vec<CauseKind>) -> (r: StutterEvent)
    ensures
        r@ == merged_event(ev@, sw@),
{
    let mut ev = ev;
    let ghost before = ev@;
    let fresh = list_fresh(&ev.cause_kinds, &sw);
    if fresh.len() == 0 {
        return ev;
    }
    let ghost told = software_texts(fresh@, before.culprits);
    let mut i: usize = 0;
    proof {
        assert(before.causes + told.take(0) =~= before.causes);
    }
    while i < fresh.len()
        invariant
            i <= fresh@.len(),
            told == software_texts(fresh@, before.culprits),
            ev@ == (EventModel { causes: before.causes + told.take(i as int), ..before }),
        decreases fresh@.len() - i,
    {
        let text = software_cause_text(fresh[i], &ev.culprits);
        push_text(&mut ev.causes, text);
        i += 1;
        proof {
            assert(ev@.causes =~= before.causes + told.take(i as int));
        }
    }
    proof {
        assert(told.take(fresh@.len() as int) =~= told);
    }
    let mut software: Vec<CauseKind> = Vec::new();
    let mut s: usize = 0;
    proof {
        assert(software@ =~= seq![]);
    }
    while s < ev.cause_kinds.len()
        invariant
            s <= ev.cause_kinds@.len(),
            software@ == software_kinds(ev.cause_kinds@, s as int),
        decreases ev.cause_kinds@.len() - s,
    {
        if ev.cause_kinds[s].is_software() {
            software.push(ev.cause_kinds[s]);
        }
        s += 1;
    }
    let ghost earlier = software@;
    let mut j: usize = 0;
    proof {
        assert(earlier + fresh@.take(0) =~= earlier);
    }
    while j < fresh.len()
        invariant
            j <= fresh@.len(),
            software@ == earlier + fresh@.take(j as int),
        decreases fresh@.len() - j,
    {
        software.push(fresh[j]);
        j += 1;
        proof {
            assert(software@ =~= earlier + fresh@.take(j as int));
        }
    }
    proof {
        assert(fresh@.take(fresh@.len() as int) =~= fresh@);
    }
    let mut kinds = sort_by_gravity(&software);
    let mut main: Option<CauseKind> = None;
    let mut m: usize = 0;
    while m < kinds.len() && main.is_none()
        invariant
            m <= kinds@.len(),
            match main {
                Some(x) => main_from(kinds@, 0) == Some(x),
                None => main_from(kinds@, m as int) == main_from(kinds@, 0),
            },
        decreases kinds@.len() - m,
    {
        if kinds[m].is_software() && kinds[m] != CauseKind::HandleHigh {
            main = Some(kinds[m]);
        }
        m += 1;
    }
    let ghost graves = kinds@;
    let mut k: usize = 0;
    proof {
        assert(graves + resource_kinds(before.cause_kinds, 0) =~= graves);
    }
    while k < ev.cause_kinds.len()
        invariant
            k <= ev.cause_kinds@.len(),
            ev.cause_kinds@ == before.cause_kinds,
            kinds@ == graves + resource_kinds(before.cause_kinds, k as int),
        decreases ev.cause_kinds@.len() - k,
    {
        let kind = ev.cause_kinds[k];
        if !kind.is_software() {
            kinds.push(kind);
        }
        k += 1;
        proof {
            assert(kinds@ =~= graves + resource_kinds(before.cause_kinds, k as int));
        }
    }
    let primary_cause = match main {
        Some(x) => Some(x),
        None => ev.primary_cause,
    };
    StutterEvent { cause_kinds: kinds, primary_cause, ..ev }
}

proof fn lemma_main_from(kinds: Seq<CauseKind>, i: int)
    requires
        0 <= i <= kinds.len(),
    ensures
        main_from(kinds, i) is Some ==> can_lead(main_from(kinds, i)->0) && kinds.contains(main_from(kinds, i)->0),
    decreases kinds.len() - i,
{
    if i < kinds.len() {
        lemma_main_from(kinds, i + 1);
    }
}

/// Sorting by gravity keeps the kinds that were there.
proof fn lemma_by_gravity(kinds: Seq<CauseKind>)
    ensures
        forall|k: CauseKind| #[trigger] by_gravity(kinds).contains(k) <==> kinds.contains(k),
{
    let keys = gravity_keys(kinds);
    lemma_ascending(keys);
    let order = ascending(keys);
    let r = by_gravity(kinds);
    assert forall|k: CauseKind| #[trigger] r.contains(k) <==> kinds.contains(k) by {
        if r.contains(k) {
            let i = choose|i: int| 0 <= i < r.len() && r[i] == k;
            assert(kinds[order[i]] == k);
        }
        if kinds.contains(k) {
            let x = choose|x: int| 0 <= x < kinds.len() && kinds[x] == k;
            let at = lemma_position(order, kinds.len() as int, x);
            assert(r[at] == k);
        }
    }
}

proof fn lemma_parts(kinds: Seq<CauseKind>, n: int, k: CauseKind)
    requires
        0 <= n <= kinds.len(),
    ensures
        software_kinds(kinds, n).contains(k) <==> software_kind(k) && kinds.take(n).contains(k),
        resource_kinds(kinds, n).contains(k) <==> !software_kind(k) && kinds.take(n).contains(k),
    decreases n,
{
    if n > 0 {
        lemma_parts(kinds, n - 1, k);
        let last = kinds[n - 1];
        let front = kinds.take(n - 1);
        let whole = kinds.take(n);
        assert(whole =~= front.push(last));
        assert(whole.contains(k) <==> front.contains(k) || k == last) by {
            lemma_pushed(front, last, k);
        }
        lemma_pushed(software_kinds(kinds, n - 1), last, k);
        lemma_pushed(resource_kinds(kinds, n - 1), last, k);
    }
}

proof fn lemma_pushed(v: Seq<CauseKind>, x: CauseKind, k: CauseKind)
    ensures
        v.push(x).contains(k) <==> v.contains(k) || k == x,
{
    let r = v.push(x);
    if v.contains(k) {
        let i = choose|i: int| 0 <= i < v.len() && v[i] == k;
        assert(r[i] == k);
    }
    assert(r[v.len() as int] == x);
    if r.contains(k) && k != x {
        let i = choose|i: int| 0 <= i < r.len() && r[i] == k;
        assert(v[i] == k);
    }
}

proof fn lemma_fresh_kinds(known: Seq<CauseKind>, kinds: Seq<CauseKind>, n: int, k: CauseKind)
    requires
        0 <= n <= kinds.len(),
    ensures
        fresh_kinds(known, kinds, n).contains(k) <==> !known.contains(k) && kinds.take(n).contains(k),
    decreases n,
{
    if n > 0 {
        lemma_fresh_kinds(known, kinds, n - 1, k);
        let last = kinds[n - 1];
        let before = fresh_kinds(known, kinds, n - 1);
        assert(kinds.take(n) =~= kinds.take(n - 1).push(last));
        lemma_pushed(kinds.take(n - 1), last, k);
        lemma_pushed(before, last, k);
    }
}

proof fn lemma_joined(a: Seq<CauseKind>, b: Seq<CauseKind>, k: CauseKind)
    ensures
        (a + b).contains(k) <==> a.contains(k) || b.contains(k),
{
    if a.contains(k) {
        let i = choose|i: int| 0 <= i < a.len() && a[i] == k;
        assert((a + b)[i] == k);
    }
    if b.contains(k) {
        let i = choose|i: int| 0 <= i < b.len() && b[i] == k;
        assert((a + b)[a.len() + i] == k);
    }
    if (a + b).contains(k) {
        let i = choose|i: int| 0 <= i < (a + b).len() && (a + b)[i] == k;
        if i < a.len() {
            assert(a[i] == k);
        } else {
            assert(b[i - a.len()] == k);
        }
    }
}

/// Taking in software causes loses no kind and invents none: an event has then exactly its former
/// kinds and the new ones.
pub proof fn lemma_merging_adds(e: EventModel, sw: Seq<CauseKind>, k: CauseKind)
    ensures
        merged_event(e, sw).cause_kinds.contains(k) <==> e.cause_kinds.contains(k) || sw.contains(k),
{
    let n = e.cause_kinds.len() as int;
    let fresh = fresh_kinds(e.cause_kinds, sw, sw.len() as int);
    let software = software_kinds(e.cause_kinds, n);
    assert(e.cause_kinds.take(n) =~= e.cause_kinds);
    assert(sw.take(sw.len() as int) =~= sw);
    lemma_parts(e.cause_kinds, n, k);
    lemma_fresh_kinds(e.cause_kinds, sw, sw.len() as int, k);
    lemma_joined(software, fresh, k);
    lemma_by_gravity(software + fresh);
    lemma_joined(software_taken(e, fresh), resource_kinds(e.cause_kinds, n), k);
}

/// Many handles alone never become the main cause of an event: taking them in leaves an event's
/// main cause one that is not of that kind.
pub proof fn lemma_hint_is_never_main(e: EventModel, sw: Seq<CauseKind>)
    requires
        e.primary_cause != Some(CauseKind::HandleHigh),
    ensures
        merged_event(e, sw).primary_cause != Some(CauseKind::HandleHigh),
{
    lemma_main_from(software_taken(e, fresh_kinds(e.cause_kinds, sw, sw.len() as int)), 0);
}

/// Where no software kind can lead, neither of the event nor of what is taken in, the main cause stays.
pub proof fn lemma_hint_leaves_main(e: EventModel, sw: Seq<CauseKind>)
    requires
        forall|i: int| 0 <= i < e.cause_kinds.len() ==> !can_lead(#[trigger] e.cause_kinds[i]),
        forall|i: int| 0 <= i < sw.len() ==> !can_lead(#[trigger] sw[i]),
    ensures
        merged_event(e, sw).primary_cause == e.primary_cause,
{
    let fresh = fresh_kinds(e.cause_kinds, sw, sw.len() as int);
    let software = software_taken(e, fresh);
    lemma_main_from(software, 0);
    let main = main_from(software, 0);
    if fresh.len() > 0 && main is Some {
        let k = main->0;
        let n = e.cause_kinds.len() as int;
        let earlier = software_kinds(e.cause_kinds, n);
        lemma_by_gravity(earlier + fresh);
        lemma_joined(earlier, fresh, k);
        lemma_parts(e.cause_kinds, n, k);
        lemma_fresh_kinds(e.cause_kinds, sw, sw.len() as int, k);
        assert(e.cause_kinds.take(n) =~= e.cause_kinds);
        assert(sw.take(sw.len() as int) =~= sw);
        if e.cause_kinds.contains(k) {
            let i = choose|i: int| 0 <= i < n && e.cause_kinds[i] == k;
            assert(!can_lead(e.cause_kinds[i]));
        } else {
            let i = choose|i: int| 0 <= i < sw.len() && sw[i] == k;
            assert(!can_lead(sw[i]));
        }
    }
}

/// Once a new software cause is taken in, the main cause is a software kind that can lead, where the
/// event then has one, and none of those is graver.
pub proof fn lemma_software_leads(e: EventModel, sw: Seq<CauseKind>, k: CauseKind)
    requires
        fresh_kinds(e.cause_kinds, sw, sw.len() as int).len() > 0,
        merged_event(e, sw).cause_kinds.contains(k),
        can_lead(k),
    ensures
        ({
            let main = merged_event(e, sw).primary_cause;
            main is Some && can_lead(main->0) && software_rank(main->0)->0 <= software_rank(k)->0
        }),
{
    let n = e.cause_kinds.len() as int;
    let fresh = fresh_kinds(e.cause_kinds, sw, sw.len() as int);
    let kinds = software_kinds(e.cause_kinds, n) + fresh;
    let graves = software_taken(e, fresh);
    lemma_joined(graves, resource_kinds(e.cause_kinds, n), k);
    lemma_parts(e.cause_kinds, n, k);
    let p = choose|p: int| 0 <= p < graves.len() && graves[p] == k;
    lemma_gravest_leads(kinds, 0, p);
}

proof fn lemma_gravest_leads(kinds: Seq<CauseKind>, i: int, p: int)
    requires
        0 <= i <= p < by_gravity(kinds).len(),
        can_lead(by_gravity(kinds)[p]),
    ensures
        ({
            let main = main_from(by_gravity(kinds), i);
            main is Some && can_lead(main->0) && software_rank(main->0)->0 <= software_rank(by_gravity(kinds)[p])->0
        }),
    decreases p - i,
{
    let graves = by_gravity(kinds);
    let keys = gravity_keys(kinds);
    lemma_ascending(keys);
    let order = ascending(keys);
    if can_lead(graves[i]) {
        if i < p {
            let x = order[i];
            let y = order[p];
            assert(keys[x] <= keys[y]);
        }
        crate::cause::lemma_software_ranks(graves[i], graves[p]);
        crate::cause::lemma_software_ranks(graves[p], graves[i]);
    } else {
        lemma_gravest_leads(kinds, i + 1, p);
    }
}

/// What the numbers of a culprit show by themselves.
pub open spec fn shows(p: ProcessModel, history: Map<u32, Seq<u32>>, limits: LeakLimits, k: CauseKind) -> bool {
    let trend = trend_of(
        counts_of(counts_for(history, p.pid), number(p.handle_count)),
        limits.handles,
        limits.handle_growth,
    );
    ||| k == CauseKind::ProcessHandleLeak && trend == HandleTrend::Leak
    ||| k == CauseKind::HandleHigh && trend == HandleTrend::High
    ||| k == CauseKind::GdiObjectLeak && number(p.gdi_objects) + number(p.user_objects) > limits.gdi
}

/// Some culprit shows a kind, or some record tells it.
pub open spec fn in_evidence(
    procs: Seq<ProcessModel>,
    events: Seq<WindowsEventRecord>,
    history: Map<u32, Seq<u32>>,
    limits: LeakLimits,
    k: CauseKind,
) -> bool {
    ||| exists|i: int| 0 <= i < procs.len() && shows(#[trigger] procs[i], history, limits, k)
    ||| exists|i: int| 0 <= i < events.len() && told_from(#[trigger] events[i], 0) == Some(k)
}

/// Software kinds, each once.
spec fn software_set(kinds: Seq<CauseKind>) -> bool {
    &&& forall|i: int| 0 <= i < kinds.len() ==> software_kind(#[trigger] kinds[i])
    &&& kinds.no_duplicates()
}

proof fn lemma_once(kinds: Seq<CauseKind>, k: CauseKind)
    requires
        software_set(kinds),
        software_kind(k),
    ensures
        software_set(once(kinds, k)),
        forall|x: CauseKind| #[trigger] once(kinds, k).contains(x) <==> kinds.contains(x) || x == k,
{
    let r = once(kinds, k);
    if !kinds.contains(k) {
        assert forall|x: CauseKind| #[trigger] r.contains(x) <==> kinds.contains(x) || x == k by {
            if kinds.contains(x) {
                let i = choose|i: int| 0 <= i < kinds.len() && kinds[i] == x;
                assert(r[i] == x);
            }
            assert(r[kinds.len() as int] == k);
            if r.contains(x) && x != k {
                let i = choose|i: int| 0 <= i < r.len() && r[i] == x;
                assert(kinds[i] == x);
            }
        }
        assert forall|i: int, j: int| 0 <= i < r.len() && 0 <= j < r.len() && i != j implies r[i] != r[j] by {
            if i == kinds.len() {
                assert(kinds.contains(kinds[j]));
            } else if j == kinds.len() {
                assert(kinds.contains(kinds[i]));
            }
        }
    }
}

proof fn lemma_shown(procs: Seq<ProcessModel>, history: Map<u32, Seq<u32>>, limits: LeakLimits, n: int)
    requires
        0 <= n <= procs.len(),
    ensures
        software_set(shown_upto(procs, history, limits, n)),
        forall|k: CauseKind| #[trigger]
            shown_upto(procs, history, limits, n).contains(k) <==> exists|i: int|
                0 <= i < n && shows(#[trigger] procs[i], history, limits, k),
    decreases n,
{
    let r = shown_upto(procs, history, limits, n);
    if n > 0 {
        let before = shown_upto(procs, history, limits, n - 1);
        lemma_shown(procs, history, limits, n - 1);
        let p = procs[n - 1];
        lemma_once(before, CauseKind::ProcessHandleLeak);
        lemma_once(before, CauseKind::HandleHigh);
        let trend = trend_of(
            counts_of(counts_for(history, p.pid), number(p.handle_count)),
            limits.handles,
            limits.handle_growth,
        );
        let mid = match trend {
            HandleTrend::Leak => once(before, CauseKind::ProcessHandleLeak),
            HandleTrend::High => once(before, CauseKind::HandleHigh),
            HandleTrend::Normal => before,
        };
        lemma_once(mid, CauseKind::GdiObjectLeak);
        assert forall|k: CauseKind| #[trigger] r.contains(k) <==> exists|i: int|
            0 <= i < n && shows(#[trigger] procs[i], history, limits, k) by {
            assert(r.contains(k) <==> before.contains(k) || shows(p, history, limits, k));
            if before.contains(k) {
                let i = choose|i: int| 0 <= i < n - 1 && shows(#[trigger] procs[i], history, limits, k);
                assert(shows(procs[i], history, limits, k));
            }
            if exists|i: int| 0 <= i < n && shows(#[trigger] procs[i], history, limits, k) {
                let i = choose|i: int| 0 <= i < n && shows(#[trigger] procs[i], history, limits, k);
                if i < n - 1 {
                    assert(before.contains(k));
                }
            }
        }
    }
}

proof fn lemma_told(kinds: Seq<CauseKind>, events: Seq<WindowsEventRecord>, n: int)
    requires
        software_set(kinds),
        0 <= n <= events.len(),
    ensures
        software_set(told_upto(kinds, events, n)),
        forall|k: CauseKind| #[trigger]
            told_upto(kinds, events, n).contains(k) <==> kinds.contains(k) || exists|i: int|
                0 <= i < n && told_from(#[trigger] events[i], 0) == Some(k),
    decreases n,
{
    if n > 0 {
        let r = told_upto(kinds, events, n);
        let before = told_upto(kinds, events, n - 1);
        lemma_told(kinds, events, n - 1);
        let told = told_from(events[n - 1], 0);
        if told is Some {
            lemma_told_is_software(events[n - 1], 0);
            lemma_once(before, told->0);
        }
        assert forall|k: CauseKind| #[trigger] r.contains(k) <==> kinds.contains(k) || exists|i: int|
            0 <= i < n && told_from(#[trigger] events[i], 0) == Some(k) by {
            assert(r.contains(k) <==> before.contains(k) || told == Some(k));
            if exists|i: int| 0 <= i < n && told_from(#[trigger] events[i], 0) == Some(k) {
                let i = choose|i: int| 0 <= i < n && told_from(#[trigger] events[i], 0) == Some(k);
                if i < n - 1 {
                    assert(before.contains(k));
                }
            }
        }
    }
}

proof fn lemma_told_is_software(ev: WindowsEventRecord, i: int)
    requires
        told_from(ev, i) is Some,
        i >= 0,
    ensures
        software_kind(told_from(ev, i)->0),
    decreases WHITELIST_COUNT - i,
{
    if i < WHITELIST_COUNT && !fits(ev, i) {
        lemma_told_is_software(ev, i + 1);
    }
}

/// The software causes are exactly the kinds in evidence, each once, however many records or culprits
/// point to it, and each graver than the next.
pub proof fn lemma_software_causes_ranked(
    procs: Seq<ProcessModel>,
    events: Seq<WindowsEventRecord>,
    history: Map<u32, Seq<u32>>,
    limits: LeakLimits,
)
    ensures
        forall|k: CauseKind| #[trigger]
            software_causes(procs, events, history, limits).contains(k) <==> in_evidence(
                procs,
                events,
                history,
                limits,
                k,
            ),
        forall|i: int, j: int|
            0 <= i < j < software_causes(procs, events, history, limits).len() ==> ({
                let a = #[trigger] software_causes(procs, events, history, limits)[i];
                let b = #[trigger] software_causes(procs, events, history, limits)[j];
                software_rank(a) is Some && software_rank(b) is Some && software_rank(a)->0 < software_rank(b)->0
            }),
{
    let shown = shown_upto(procs, history, limits, procs.len() as int);
    let kinds = told_upto(shown, events, events.len() as int);
    let r = software_causes(procs, events, history, limits);
    lemma_shown(procs, history, limits, procs.len() as int);
    lemma_told(shown, events, events.len() as int);
    let keys = gravity_keys(kinds);
    lemma_ascending(keys);
    let order = ascending(keys);
    assert forall|k: CauseKind| #[trigger] r.contains(k) <==> in_evidence(procs, events, history, limits, k) by {
        if r.contains(k) {
            let i = choose|i: int| 0 <= i < r.len() && r[i] == k;
            assert(kinds[order[i]] == k);
            assert(kinds.contains(k));
        }
        if kinds.contains(k) {
            let x = choose|x: int| 0 <= x < kinds.len() && kinds[x] == k;
            let at = lemma_position(order, kinds.len() as int, x);
            assert(r[at] == k);
        }
        assert(kinds.contains(k) <==> in_evidence(procs, events, history, limits, k));
    }
    assert forall|i: int, j: int| 0 <= i < j < r.len() implies ({
        let a = #[trigger] r[i];
        let b = #[trigger] r[j];
        software_rank(a) is Some && software_rank(b) is Some && software_rank(a)->0 < software_rank(b)->0
    }) by {
        let x = order[i];
        let y = order[j];
        assert(keys[x] <= keys[y]);
        assert(kinds[x] != kinds[y]);
        assert(software_kind(kinds[x]) && software_kind(kinds[y]));
        crate::cause::lemma_software_ranks(kinds[x], kinds[y]);
    }
}

proof fn lemma_falling_sum(v: Seq<u32>, from: int, to: int, bound: int, low: bool)
    requires
        0 <= from <= to <= v.len(),
        low ==> forall|i: int| from <= i < to ==> bound <= #[trigger] v[i],
        !low ==> forall|i: int| from <= i < to ==> #[trigger] v[i] <= bound,
    ensures
        low ==> sum_range(v, from, to) >= (to - from) * bound,
        !low ==> sum_range(v, from, to) <= (to - from) * bound,
    decreases to - from,
{
    if from < to {
        lemma_falling_sum(v, from, to - 1, bound, low);
        assert((to - from) * bound == (to - 1 - from) * bound + bound) by (nonlinear_arith);
        assert(low ==> bound <= v[to - 1]);
        assert(!low ==> v[to - 1] <= bound);
    } else {
        assert((to - from) * bound == 0) by (nonlinear_arith)
            requires
                to == from,
        ;
    }
}

/// Handle counts that never rise are no leak, however high they are.
pub proof fn lemma_steady_handles_are_no_leak(v: Seq<u32>, abs_threshold: u32, growth_threshold: u32)
    requires
        growth_threshold > 0,
        forall|i: int, j: int| 0 <= i < j < v.len() ==> v[i] >= v[j],
    ensures
        trend_of(v, abs_threshold, growth_threshold) != HandleTrend::Leak,
{
    let n = v.len() as int;
    if n >= 2 {
        let half = n / 2;
        let n2 = n - half;
        let bound = v[half - 1] as int;
        lemma_falling_sum(v, 0, half, bound, true);
        lemma_falling_sum(v, half, n, bound, false);
        let s1 = sum_range(v, 0, half);
        let s2 = sum_range(v, half, n);
        assert(s2 * half - s1 * n2 <= 0) by (nonlinear_arith)
            requires
                s1 >= half * bound,
                s2 <= n2 * bound,
                half > 0,
                n2 > 0,
        ;
        assert(growth_threshold * half * n2 > 0) by (nonlinear_arith)
            requires
                growth_threshold > 0,
                half > 0,
                n2 > 0,
        ;
    }
}

} // verus!
