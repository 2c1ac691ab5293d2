//! What a stutter and its event hold, from the first tick with a cause to the first without one.

use crate::cause::{key_of, kind_of, lemma_first_prefix, CauseKind, Severity};
use crate::detector::{
    causes_joined, has_touch, key_at, observed, pid_at, probes, sighted, sighted_all, tick, touched, touched_all, weighty_count, Clock,
    DetectorModel, Figures,
};
use crate::detector_laws::{
    lemma_same_key, lemma_sighted_all, lemma_tick_keeps_well_formed, lemma_touched_all, one_of_each, well_formed,
};
use crate::level::{at_most, Level};
use crate::signal_laws::{goes_on, said};
use crate::text::decimal;
use crate::types::{distinct_pids, ProcessModel, SampleModel};
use vstd::prelude::*;

verus! {

/// An entry is no lower than a sighting.
pub open spec fn covers(entry: ProcessModel, p: ProcessModel) -> bool {
    &&& entry.pid == p.pid
    &&& entry.mem_used_mb >= p.mem_used_mb
    &&& p.cpu_usage is At ==> at_most(p.cpu_usage, entry.cpu_usage)
}

/// No entry falls: each stays in its place, under its name, and covers what it was.
pub open spec fn none_falls(before: Seq<ProcessModel>, after: Seq<ProcessModel>) -> bool {
    before.len() <= after.len() && forall|i: int|
        0 <= i < before.len() ==> covers(#[trigger] after[i], before[i]) && after[i].name == before[i].name
}

/// Some entry covers a sighting.
pub open spec fn covered(p: ProcessModel, after: Seq<ProcessModel>) -> bool {
    exists|i: int| 0 <= i < after.len() && covers(#[trigger] after[i], p)
}

/// Some sighting of a process had this CPU use.
pub open spec fn seen_with_cpu(seen: Seq<ProcessModel>, pid: u32, cpu: Level) -> bool {
    exists|j: int| 0 <= j < seen.len() && (#[trigger] seen[j]).pid == pid && seen[j].cpu_usage == cpu
}

/// Some sighting of a process had this memory use.
pub open spec fn seen_with_mem(seen: Seq<ProcessModel>, pid: u32, mem: u64) -> bool {
    exists|j: int| 0 <= j < seen.len() && (#[trigger] seen[j]).pid == pid && seen[j].mem_used_mb == mem
}

/// Some sighting of a process had this name.
pub open spec fn seen_with_name(seen: Seq<ProcessModel>, pid: u32, name: Seq<char>) -> bool {
    exists|j: int| 0 <= j < seen.len() && (#[trigger] seen[j]).pid == pid && seen[j].name == name
}

/// What an entry says was so before, or in a sighting.
pub open spec fn borne_out(before: Seq<ProcessModel>, seen: Seq<ProcessModel>, after: Seq<ProcessModel>, i: int) -> bool {
    let e = after[i];
    &&& i < before.len() && e.cpu_usage == before[i].cpu_usage || seen_with_cpu(seen, e.pid, e.cpu_usage)
    &&& i < before.len() && e.mem_used_mb == before[i].mem_used_mb || seen_with_mem(seen, e.pid, e.mem_used_mb)
    &&& i < before.len() || seen_with_name(seen, e.pid, e.name)
}

proof fn lemma_pid_at(s: Seq<ProcessModel>, pid: u32, i: int)
    requires
        0 <= i <= s.len(),
    ensures
        i <= pid_at(s, pid, i) <= s.len(),
        pid_at(s, pid, i) < s.len() ==> s[pid_at(s, pid, i)].pid == pid,
        pid_at(s, pid, i) == s.len() ==> forall|k: int| i <= k < s.len() ==> (#[trigger] s[k]).pid != pid,
    decreases s.len() - i,
{
    if i < s.len() && s[i].pid != pid {
        lemma_pid_at(s, pid, i + 1);
    }
}

proof fn lemma_none_falls(before: Seq<ProcessModel>, seen: Seq<ProcessModel>)
    ensures
        none_falls(before, sighted_all(before, seen)),
    decreases seen.len(),
{
    if seen.len() > 0 {
        let mid = sighted_all(before, seen.drop_last());
        lemma_none_falls(before, seen.drop_last());
        lemma_sighting_covers(mid, seen.last());
        let after = sighted_all(before, seen);
        assert forall|i: int| 0 <= i < before.len() implies covers(#[trigger] after[i], before[i]) && after[i].name
            == before[i].name by {
            assert(covers(mid[i], before[i]));
            assert(covers(after[i], mid[i]));
        }
    }
}

proof fn lemma_sighting_covers(mid: Seq<ProcessModel>, p: ProcessModel)
    ensures
        none_falls(mid, sighted(mid, p)),
        covered(p, sighted(mid, p)),
        sighted(mid, p).len() <= mid.len() + 1,
        forall|i: int|
            0 <= i < sighted(mid, p).len() ==> {
                let e = #[trigger] sighted(mid, p)[i];
                &&& i < mid.len() && e.cpu_usage == mid[i].cpu_usage || e.pid == p.pid && e.cpu_usage == p.cpu_usage
                &&& i < mid.len() && e.mem_used_mb == mid[i].mem_used_mb || e.pid == p.pid && e.mem_used_mb == p.mem_used_mb
                &&& i < mid.len() || e == p
            },
{
    let at = pid_at(mid, p.pid, 0);
    lemma_pid_at(mid, p.pid, 0);
    let after = sighted(mid, p);
    assert(covers(after[at], p));
}

proof fn lemma_all_covered(before: Seq<ProcessModel>, seen: Seq<ProcessModel>, j: int)
    requires
        0 <= j < seen.len(),
    ensures
        covered(seen[j], sighted_all(before, seen)),
    decreases seen.len(),
{
    let front = seen.drop_last();
    let mid = sighted_all(before, front);
    let after = sighted_all(before, seen);
    lemma_sighting_covers(mid, seen.last());
    if j < front.len() {
        lemma_all_covered(before, front, j);
        let i = choose|i: int| 0 <= i < mid.len() && covers(#[trigger] mid[i], front[j]);
        assert(covers(after[i], mid[i]));
        assert(covers(after[i], seen[j]));
    }
}

proof fn lemma_borne_out(before: Seq<ProcessModel>, seen: Seq<ProcessModel>, i: int)
    requires
        0 <= i < sighted_all(before, seen).len(),
    ensures
        borne_out(before, seen, sighted_all(before, seen), i),
    decreases seen.len(),
{
    if seen.len() > 0 {
        let front = seen.drop_last();
        let mid = sighted_all(before, front);
        let after = sighted_all(before, seen);
        let e = after[i];
        let last = seen[seen.len() - 1];
        lemma_sighting_covers(mid, last);
        if i < mid.len() {
            lemma_borne_out(before, front, i);
            assert(covers(after[i], mid[i]));
            if seen_with_cpu(front, e.pid, mid[i].cpu_usage) {
                let j = choose|j: int|
                    0 <= j < front.len() && (#[trigger] front[j]).pid == e.pid && front[j].cpu_usage == mid[i].cpu_usage;
                assert(seen[j] == front[j]);
            }
            if seen_with_mem(front, e.pid, mid[i].mem_used_mb) {
                let j = choose|j: int|
                    0 <= j < front.len() && (#[trigger] front[j]).pid == e.pid && front[j].mem_used_mb
                        == mid[i].mem_used_mb;
                assert(seen[j] == front[j]);
            }
            if seen_with_name(front, e.pid, mid[i].name) {
                let j = choose|j: int| 0 <= j < front.len() && (#[trigger] front[j]).pid == e.pid && front[j].name == mid[i].name;
                assert(seen[j] == front[j]);
            }
        } else {
            assert(e == last);
        }
    }
}

/// While a stutter is followed, each process is held with the largest CPU use and the largest memory use
/// that it was sighted with.
pub proof fn lemma_culprits_hold_peaks(m: DetectorModel, sample: SampleModel, f: Figures, now: Clock, frozen: bool)
    requires
        goes_on(m, now),
        observed(m, sample.readings, f, now).1.len() > 0,
    ensures
        ({
            let held = tick(m, sample, f, now, frozen).0.culprits;
            let seen = sample.top_processes;
            &&& none_falls(m.culprits, held)
            &&& forall|j: int| 0 <= j < seen.len() ==> covered(#[trigger] seen[j], held)
            &&& forall|i: int| 0 <= i < held.len() ==> #[trigger] borne_out(m.culprits, seen, held, i)
            &&& distinct_pids(m.culprits) ==> distinct_pids(held)
        }),
{
    let seen = sample.top_processes;
    let held = sighted_all(m.culprits, seen);
    lemma_none_falls(m.culprits, seen);
    assert forall|j: int| 0 <= j < seen.len() implies covered(#[trigger] seen[j], held) by {
        lemma_all_covered(m.culprits, seen, j);
    }
    assert forall|i: int| 0 <= i < held.len() implies #[trigger] borne_out(m.culprits, seen, held, i) by {
        lemma_borne_out(m.culprits, seen, i);
    }
    if distinct_pids(m.culprits) {
        lemma_sighted_all(m.culprits, seen);
    }
}

/// A stutter begins with the first tick that has a cause and goes on with every further one; the first
/// tick without a cause ends it, and nothing of it is left. Processes are looked at exactly meanwhile.
pub proof fn lemma_stutter_begins_and_ends(m: DetectorModel, sample: SampleModel, f: Figures, now: Clock, frozen: bool)
    requires
        well_formed(m),
    ensures
        ({
            let next = tick(m, sample, f, now, frozen).0;
            let some = observed(m, sample.readings, f, now).1.len() > 0;
            &&& some && goes_on(m, now) && m.stutter_start is Some ==> next.stutter_start == m.stutter_start
            &&& some && (!goes_on(m, now) || m.stutter_start is None) ==> next.stutter_start == Some(now.wall_ns)
            &&& some ==> next.need_snapshot && tick(m, sample, f, now, frozen).1 is None
            &&& !some ==> next.stutter_start is None && !next.need_snapshot && next.causes.len() == 0 && next.culprits.len()
                == 0 && next.first_touch.len() == 0
            &&& next.last_tick == Some(now.wall_ns)
        }),
{
}

/// Whether the foreground window is asked in this tick: it has a cause, and two seconds have passed since
/// it was last asked.
pub open spec fn asks(m: DetectorModel, sample: SampleModel, f: Figures, now: Clock) -> bool {
    observed(m, sample.readings, f, now).1.len() > 0 && match m.last_ui_probe {
        Some(t) => now.steady_ns >= t + 2_000_000_000,
        None => true,
    }
}

/// What is known of the foreground window in a tick with causes: the answer where it was asked, else what
/// was known before.
pub open spec fn froze(m: DetectorModel, sample: SampleModel, f: Figures, now: Clock, frozen: bool) -> bool {
    if asks(m, sample, f, now) {
        frozen
    } else {
        goes_on(m, now) && m.signals.ui_freeze_active
    }
}

/// The causes that a tick adds to a stutter: its own, and a frozen window behind them.
pub open spec fn added(m: DetectorModel, sample: SampleModel, f: Figures, now: Clock, frozen: bool) -> Seq<Seq<char>> {
    observed(m, sample.readings, f, now).1 + said(
        froze(m, sample, f, now, frozen),
        "UI frozen (前台窗口无响应 "@ + decimal(m.config.lines.ui_freeze_timeout_ms as nat) + "ms)"@,
    )
}

proof fn lemma_added(m: DetectorModel, sample: SampleModel, f: Figures, now: Clock, frozen: bool)
    ensures
        ({
            let (seen, causes) = observed(m, sample.readings, f, now);
            let text = "UI frozen (前台窗口无响应 "@ + decimal(m.config.lines.ui_freeze_timeout_ms as nat) + "ms)"@;
            added(m, sample, f, now, frozen) == (if froze(m, sample, f, now, frozen) {
                causes.push(text)
            } else {
                causes
            })
        }),
{
    let causes = observed(m, sample.readings, f, now).1;
    let text = "UI frozen (前台窗口无响应 "@ + decimal(m.config.lines.ui_freeze_timeout_ms as nat) + "ms)"@;
    assert(causes + seq![text] =~= causes.push(text));
    assert(causes + seq![] =~= causes);
}

/// The window is asked only where there is a cause and not twice within two seconds, and a window that
/// does not answer is one more cause of the stutter.
pub proof fn lemma_frozen_window_is_a_cause(m: DetectorModel, sample: SampleModel, f: Figures, now: Clock, frozen: bool)
    requires
        well_formed(m),
        observed(m, sample.readings, f, now).1.len() > 0,
    ensures
        ({
            let next = tick(m, sample, f, now, frozen).0;
            &&& next.signals.ui_freeze_active == froze(m, sample, f, now, frozen)
            &&& next.last_ui_probe == (if asks(m, sample, f, now) {
                Some(now.steady_ns)
            } else {
                m.last_ui_probe
            })
            &&& !goes_on(m, now) || m.stutter_start is None ==> next.causes == added(m, sample, f, now, frozen)
        }),
{
    lemma_added(m, sample, f, now, frozen);
}

/// No cause out of some has this key.
pub open spec fn none_with_key(causes: Seq<Seq<char>>, key: Seq<char>) -> bool {
    forall|j: int| 0 <= j < causes.len() ==> key_of(#[trigger] causes[j]) != key
}

/// The causes of a stutter, by those before a tick and those that it adds: each keeps its place and its
/// key, with the latest text; nothing is lost, and only new causes are appended.
pub open spec fn taken_in(before: Seq<Seq<char>>, new: Seq<Seq<char>>, after: Seq<Seq<char>>) -> bool {
    &&& before.len() <= after.len()
    &&& forall|i: int|
        0 <= i < before.len() ==> {
            &&& key_of(#[trigger] after[i]) == key_of(before[i])
            &&& none_with_key(new, key_of(before[i])) ==> after[i] == before[i]
            &&& !none_with_key(new, key_of(before[i])) ==> new.contains(after[i])
        }
    &&& forall|i: int| before.len() <= i < after.len() ==> new.contains(#[trigger] after[i])
    &&& forall|j: int| 0 <= j < new.len() ==> !none_with_key(after, key_of(#[trigger] new[j]))
}

proof fn lemma_key_at(causes: Seq<Seq<char>>, key: Seq<char>, i: int)
    requires
        0 <= i <= causes.len(),
    ensures
        i <= key_at(causes, key, i) <= causes.len(),
        key_at(causes, key, i) < causes.len() ==> key_of(causes[key_at(causes, key, i)]) == key,
        forall|j: int| i <= j < key_at(causes, key, i) ==> key_of(#[trigger] causes[j]) != key,
    decreases causes.len() - i,
{
    if i < causes.len() && key_of(causes[i]) != key {
        lemma_key_at(causes, key, i + 1);
    }
}

/// Whether no two causes have the same key.
pub open spec fn keys_differ(causes: Seq<Seq<char>>) -> bool {
    forall|i: int, j: int| 0 <= i < j < causes.len() ==> key_of(#[trigger] causes[i]) != key_of(#[trigger] causes[j])
}

proof fn lemma_taken_in(before: Seq<Seq<char>>, touches: Seq<(CauseKind, u64)>, new: Seq<Seq<char>>, now: u64)
    requires
        keys_differ(before),
    ensures
        taken_in(before, new, causes_joined(before, touches, new, now).0),
        keys_differ(causes_joined(before, touches, new, now).0),
    decreases new.len(),
{
    if new.len() > 0 {
        let front = new.drop_last();
        let x = new.last();
        let mid = causes_joined(before, touches, front, now).0;
        let after = causes_joined(before, touches, new, now).0;
        lemma_taken_in(before, touches, front, now);
        let at = key_at(mid, key_of(x), 0);
        lemma_key_at(mid, key_of(x), 0);
        assert(new[new.len() - 1] == x);
        assert forall|t: Seq<char>| front.contains(t) implies new.contains(t) by {
            let j = choose|j: int| 0 <= j < front.len() && front[j] == t;
            assert(new[j] == t);
        }
        assert(after[at] == x);
        assert forall|k: Seq<char>| #[trigger] none_with_key(new, k) <==> none_with_key(front, k) && key_of(x) != k by {
            if none_with_key(new, k) {
                assert forall|j: int| 0 <= j < front.len() implies key_of(#[trigger] front[j]) != k by {
                    assert(new[j] == front[j]);
                }
            }
            if none_with_key(front, k) && key_of(x) != k {
                assert forall|j: int| 0 <= j < new.len() implies key_of(#[trigger] new[j]) != k by {
                    if j < front.len() {
                        assert(front[j] == new[j]);
                    }
                }
            }
        }
        assert forall|i: int| 0 <= i < before.len() implies {
            &&& key_of(#[trigger] after[i]) == key_of(before[i])
            &&& none_with_key(new, key_of(before[i])) ==> after[i] == before[i]
            &&& !none_with_key(new, key_of(before[i])) ==> new.contains(after[i])
        } by {
            assert(key_of(mid[i]) == key_of(before[i]));
            if key_of(x) == key_of(before[i]) && i != at {
                assert(key_of(mid[i]) == key_of(mid[at]));
            }
        }
        assert forall|i: int| before.len() <= i < after.len() implies new.contains(#[trigger] after[i]) by {
            if i != at {
                assert(front.contains(mid[i]));
            }
        }
        assert forall|j: int| 0 <= j < new.len() implies !none_with_key(after, key_of(#[trigger] new[j])) by {
            if j < front.len() {
                assert(front[j] == new[j]);
                let i = choose|i: int| 0 <= i < mid.len() && key_of(#[trigger] mid[i]) == key_of(front[j]);
                assert(key_of(after[i]) == key_of(new[j]));
            } else {
                assert(key_of(after[at]) == key_of(x));
            }
        }
        assert(keys_differ(after)) by {
            assert forall|i: int, j: int| 0 <= i < j < after.len() implies key_of(#[trigger] after[i]) != key_of(
                #[trigger] after[j],
            ) by {
                if j < mid.len() {
                    assert(key_of(mid[i]) != key_of(mid[j]));
                    assert(key_of(after[i]) == key_of(mid[i]));
                    assert(key_of(after[j]) == key_of(mid[j]));
                } else {
                    assert(key_of(mid[i]) != key_of(x));
                }
            }
        }
    }
}

proof fn lemma_one_of_each_differ(causes: Seq<Seq<char>>)
    requires
        one_of_each(causes),
    ensures
        keys_differ(causes),
{
    assert forall|i: int, j: int| 0 <= i < j < causes.len() implies key_of(#[trigger] causes[i]) != key_of(
        #[trigger] causes[j],
    ) by {
        lemma_first_prefix(causes[i], 0);
        lemma_first_prefix(causes[j], 0);
        lemma_same_key(causes[i], causes[j]);
    }
}

/// While a stutter goes on, its causes are kept, each under its key with the latest text, and new ones
/// are added. The kinds keep the time of their first sighting, and new kinds have the time of this tick.
pub proof fn lemma_causes_gather(m: DetectorModel, sample: SampleModel, f: Figures, now: Clock, frozen: bool)
    requires
        well_formed(m),
        goes_on(m, now),
        m.stutter_start is Some,
        observed(m, sample.readings, f, now).1.len() > 0,
    ensures
        ({
            let next = tick(m, sample, f, now, frozen).0;
            let new = added(m, sample, f, now, frozen);
            &&& taken_in(m.causes, new, next.causes)
            &&& keys_differ(next.causes)
            &&& newly_touched(m.first_touch, new, next.first_touch, now.wall_ns)
        }),
{
    lemma_added(m, sample, f, now, frozen);
    let new = added(m, sample, f, now, frozen);
    lemma_one_of_each_differ(m.causes);
    lemma_taken_in(m.causes, m.first_touch, new, now.wall_ns);
    lemma_newly_touched(m.causes, m.first_touch, new, now.wall_ns);
}

/// The first sightings after a tick: those before it, unchanged, and behind them kinds of its causes, at
/// its time.
pub open spec fn newly_touched(
    before: Seq<(CauseKind, u64)>,
    new: Seq<Seq<char>>,
    after: Seq<(CauseKind, u64)>,
    now: u64,
) -> bool {
    &&& before.is_prefix_of(after)
    &&& forall|i: int|
        before.len() <= i < after.len() ==> (#[trigger] after[i]).1 == now && exists|j: int|
            0 <= j < new.len() && kind_of(#[trigger] new[j]) == Some(after[i].0)
}

proof fn lemma_newly_touched(causes: Seq<Seq<char>>, touches: Seq<(CauseKind, u64)>, new: Seq<Seq<char>>, now: u64)
    ensures
        newly_touched(touches, new, causes_joined(causes, touches, new, now).1, now),
    decreases new.len(),
{
    if new.len() == 0 {
        assert(touches =~= touches.subrange(0, touches.len() as int));
    } else {
        let front = new.drop_last();
        let x = new[new.len() - 1];
        let mid = causes_joined(causes, touches, front, now).1;
        let after = causes_joined(causes, touches, new, now).1;
        lemma_newly_touched(causes, touches, front, now);
        assert(after == mid || after == touched(mid, x, now));
        assert(touches =~= after.subrange(0, touches.len() as int)) by {
            assert(touches =~= mid.subrange(0, touches.len() as int));
            assert forall|i: int| 0 <= i < touches.len() implies touches[i] == #[trigger] after[i] by {
                assert(mid.subrange(0, touches.len() as int)[i] == mid[i]);
            }
        }
        assert forall|i: int| touches.len() <= i < after.len() implies (#[trigger] after[i]).1 == now && exists|j: int|
            0 <= j < new.len() && kind_of(#[trigger] new[j]) == Some(after[i].0) by {
            if i < mid.len() {
                assert(after[i] == mid[i]);
                let j = choose|j: int| 0 <= j < front.len() && kind_of(#[trigger] front[j]) == Some(mid[i].0);
                assert(new[j] == front[j]);
            } else {
                assert(kind_of(x) == Some(after[i].0));
            }
        }
    }
}

/// At the first tick of a stutter every kind of its causes is sighted, each at the time of the tick.
pub proof fn lemma_first_sightings(m: DetectorModel, sample: SampleModel, f: Figures, now: Clock, frozen: bool)
    requires
        well_formed(m),
        !goes_on(m, now) || m.stutter_start is None,
        observed(m, sample.readings, f, now).1.len() > 0,
    ensures
        ({
            let next = tick(m, sample, f, now, frozen).0;
            let new = added(m, sample, f, now, frozen);
            &&& next.causes == new
            &&& forall|i: int| 0 <= i < next.first_touch.len() ==> (#[trigger] next.first_touch[i]).1 == now.wall_ns
            &&& forall|j: int|
                0 <= j < new.len() ==> match kind_of(#[trigger] new[j]) {
                    Some(k) => has_touch(next.first_touch, k),
                    None => true,
                }
        }),
{
    lemma_added(m, sample, f, now, frozen);
    let new = added(m, sample, f, now, frozen);
    lemma_tick_keeps_well_formed(m, sample, f, now, frozen);
    let none = Seq::<(CauseKind, u64)>::empty();
    assert(m.stutter_start is None ==> m.first_touch =~= none);
    assert(tick(m, sample, f, now, frozen).0.first_touch == touched_all(none, new, now.wall_ns));
    lemma_touched_all(new, now.wall_ns);
}

/// A cause that a stutter can be of: it is neither network nor disk throughput alone.
pub open spec fn weighs(cause: Seq<char>) -> bool {
    kind_of(cause) != Some(CauseKind::NetSpike) && kind_of(cause) != Some(CauseKind::DiskSpike)
}

/// How long a stutter has lasted, in milliseconds.
pub open spec fn lasted_ms(start: u64, now: Clock) -> int {
    if now.wall_ns >= start {
        (now.wall_ns - start) / 1_000_000
    } else {
        0
    }
}

/// A stutter is recorded exactly where it ends without an interruption, lasted as long as the settings
/// ask, and had a cause of a known kind that is more than throughput.
pub proof fn lemma_when_an_event_is_recorded(m: DetectorModel, sample: SampleModel, f: Figures, now: Clock, frozen: bool)
    requires
        well_formed(m),
    ensures
        tick(m, sample, f, now, frozen).1 is Some <==> {
            &&& goes_on(m, now)
            &&& m.stutter_start is Some
            &&& observed(m, sample.readings, f, now).1.len() == 0
            &&& lasted_ms(m.stutter_start->0, now) >= m.config.lines.sustained_seconds * 1000
            &&& exists|i: int| 0 <= i < m.causes.len() && weighs(#[trigger] m.causes[i]) && kind_of(m.causes[i]) is Some
        },
{
    if exists|i: int| 0 <= i < m.causes.len() && weighs(#[trigger] m.causes[i]) && kind_of(m.causes[i]) is Some {
        let i = choose|i: int| 0 <= i < m.causes.len() && weighs(#[trigger] m.causes[i]) && kind_of(m.causes[i]) is Some;
        assert(crate::detector::is_pressure_cause(m.causes[i]));
    }
    if crate::detector::has_pressure(m.causes) {
        let i = choose|i: int| 0 <= i < m.causes.len() && crate::detector::is_pressure_cause(#[trigger] m.causes[i]);
        assert(weighs(m.causes[i]) && kind_of(m.causes[i]) is Some);
    }
}

/// What an event tells of its stutter: when it ended and began, how long it lasted, its causes, when each
/// kind was first sighted after the beginning, and the sample that ended it.
pub proof fn lemma_what_an_event_tells(m: DetectorModel, sample: SampleModel, f: Figures, now: Clock, frozen: bool)
    requires
        well_formed(m),
        tick(m, sample, f, now, frozen).1 is Some,
    ensures
        ({
            let e = tick(m, sample, f, now, frozen).1->0;
            let start = m.stutter_start->0;
            &&& e.id == 0
            &&& e.timestamp.secs == now.wall_ns as int / 1_000_000_000
            &&& e.timestamp.nanos == now.wall_ns as int % 1_000_000_000
            &&& e.duration_ms == lasted_ms(start, now)
            &&& e.onset_ts == Some((start as int / 1_000_000) as i64)
            &&& e.causes == m.causes
            &&& e.snapshot == sample
            &&& e.cause_first_touch.len() == m.first_touch.len()
            &&& forall|i: int|
                0 <= i < m.first_touch.len() ==> {
                    let (k, t) = #[trigger] m.first_touch[i];
                    &&& e.cause_first_touch[i].0 == k
                    &&& t >= start ==> e.cause_first_touch[i].1 == (t - start) / 1_000_000
                    &&& t < start ==> e.cause_first_touch[i].1 == 0
                }
        }),
{
    let e = tick(m, sample, f, now, frozen).1->0;
    let start = m.stutter_start->0;
    assert forall|i: int| 0 <= i < m.first_touch.len() implies {
        let (k, t) = #[trigger] m.first_touch[i];
        &&& e.cause_first_touch[i].0 == k
        &&& t >= start ==> e.cause_first_touch[i].1 == (t - start) / 1_000_000
        &&& t < start ==> e.cause_first_touch[i].1 == 0
    } by {
        let (k, t) = m.first_touch[i];
        let d = if t >= start {
            (t - start) / 1_000_000
        } else {
            0
        };
        assert(0 <= d <= 0x7fff_ffff_ffff_ffff);
    }
}

/// Weighty causes stand at `n` rising positions.
pub open spec fn weigh_at(causes: Seq<Seq<char>>, at: Seq<int>, n: int) -> bool {
    &&& at.len() == n
    &&& forall|i: int| 0 <= i < n ==> 0 <= #[trigger] at[i] < causes.len() && weighs(causes[at[i]])
    &&& forall|i: int, j: int| 0 <= i < j < n ==> at[i] < at[j]
}

proof fn lemma_weighty_found(causes: Seq<Seq<char>>) -> (at: Seq<int>)
    ensures
        weigh_at(causes, at, weighty_count(causes)),
    decreases causes.len(),
{
    if causes.len() == 0 {
        seq![]
    } else {
        let front = causes.drop_last();
        let before = lemma_weighty_found(front);
        let n = before.len() as int;
        let at = if weighs(causes.last()) {
            before.push(causes.len() - 1)
        } else {
            before
        };
        assert forall|i: int| 0 <= i < at.len() implies 0 <= #[trigger] at[i] < causes.len() && weighs(causes[at[i]]) by {
            if i < n {
                assert(at[i] == before[i]);
                assert(front[before[i]] == causes[before[i]]);
            }
        }
        at
    }
}

proof fn lemma_weighty_counted(causes: Seq<Seq<char>>, at: Seq<int>)
    requires
        weigh_at(causes, at, at.len() as int),
    ensures
        weighty_count(causes) >= at.len(),
    decreases causes.len(),
{
    if at.len() > 0 {
        let front = causes.drop_last();
        let last = at[at.len() - 1];
        let rest = if last == causes.len() - 1 {
            at.drop_last()
        } else {
            at
        };
        assert forall|i: int| 0 <= i < rest.len() implies 0 <= #[trigger] rest[i] < front.len() && weighs(front[rest[i]]) by {
            assert(rest[i] == at[i]);
            if i < at.len() - 1 {
                assert(at[i] < last);
            }
            assert(front[rest[i]] == causes[at[i]]);
        }
        assert(weigh_at(front, rest, rest.len() as int));
        lemma_weighty_counted(front, rest);
    } else {
        lemma_weighty_is_count(causes);
    }
}

proof fn lemma_weighty_is_count(causes: Seq<Seq<char>>)
    ensures
        weighty_count(causes) >= 0,
    decreases causes.len(),
{
    if causes.len() > 0 {
        lemma_weighty_is_count(causes.drop_last());
    }
}

/// At least `n` causes weigh.
pub open spec fn weigh(causes: Seq<Seq<char>>, n: int) -> bool {
    exists|at: Seq<int>| weigh_at(causes, at, n)
}

proof fn lemma_weigh(causes: Seq<Seq<char>>, n: int)
    requires
        n >= 0,
    ensures
        weigh(causes, n) <==> weighty_count(causes) >= n,
{
    let found = lemma_weighty_found(causes);
    if weighty_count(causes) >= n {
        let at = found.take(n);
        assert forall|i: int| 0 <= i < n implies 0 <= #[trigger] at[i] < causes.len() && weighs(causes[at[i]]) by {
            assert(at[i] == found[i]);
        }
        assert(weigh_at(causes, at, n));
    }
    if weigh(causes, n) {
        let at = choose|at: Seq<int>| weigh_at(causes, at, n);
        lemma_weighty_counted(causes, at);
    }
}

/// An event is critical with three causes that weigh or after half a minute, major with two or after ten
/// seconds, and minor otherwise; throughput alone adds nothing.
pub proof fn lemma_severity_of_events(m: DetectorModel, sample: SampleModel, f: Figures, now: Clock, frozen: bool)
    requires
        well_formed(m),
        tick(m, sample, f, now, frozen).1 is Some,
    ensures
        ({
            let e = tick(m, sample, f, now, frozen).1->0;
            let critical = weigh(e.causes, 3) || e.duration_ms > 30_000;
            let major = weigh(e.causes, 2) || e.duration_ms > 10_000;
            &&& critical ==> e.severity == Severity::Critical
            &&& !critical && major ==> e.severity == Severity::Major
            &&& !critical && !major ==> e.severity == Severity::Minor
        }),
{
    let e = tick(m, sample, f, now, frozen).1->0;
    lemma_weigh(e.causes, 3);
    lemma_weigh(e.causes, 2);
    lemma_what_an_event_tells(m, sample, f, now, frozen);
}

/// A probe is due exactly in the ticks that ask the window.
pub proof fn lemma_when_a_probe_is_due(m: DetectorModel, sample: SampleModel, f: Figures, now: Clock)
    ensures
        probes(m, sample.readings, f, now) <==> asks(m, sample, f, now),
{
}

} // verus!
