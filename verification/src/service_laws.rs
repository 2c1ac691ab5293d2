//! What the service does over time, and what it answers.

use crate::cause::EventModel;
use crate::collector::{
    gained, gpu_use, io_read, load_upto, net_read, next_tick, planned, readings_from, NetRates, RawCounters, Schedule,
    TOP_BY_CPU, TOP_BY_MEM, TOP_MAX,
};
use crate::install::{
    backslashed, command_code, install_actions, status_code, told_state, InstallAction, InstallFound, ServiceStatusInfo,
};
use crate::maintenance::{vacuum_choice, VacuumChoice};
use crate::service::{begun, controlled, duties, window_searched, ControlEvent, ControlReply, LoopState, TickDuties};
use crate::service_status::{health_of, state_code, HeartbeatFound, HeartbeatHealth, ScmState};
use crate::timestamps::{calendar_millis, rfc3339_moment, whole_millis};
use crate::types::{SampleModel, Timestamp};
use crate::elevate::{refusal, was_denied, ElevateOutcome};
use crate::monitor::{cleared, monitored, MonitorModel};
use crate::detector::{tick, Clock, Figures};
use crate::software_laws::{counts_in, lemma_counts_gather};
use crate::software_root_cause::counts_for;
use vstd::prelude::*;

verus! {

/// Processes are looked at in every fifth tick and whenever they are needed; clock and temperature in every
/// fifth tick, the GPU in every fifteenth; top processes only where they are needed.
pub proof fn lemma_what_a_tick_collects(tick: u32, needed: bool)
    ensures
        ({
            let p = planned(tick, needed);
            &&& p.refresh_processes <==> needed || tick as int % 5 == 0
            &&& p.freq_temp <==> tick as int % 5 == 0
            &&& p.gpu <==> tick as int % 15 == 0
            &&& p.top_processes <==> needed
        }),
        tick < 0xffff_ffff ==> next_tick(tick) == tick + 1,
        next_tick(0xffff_ffff) == 0,
{
}

/// A rate is how much a counter has grown since the last tick, and nothing where it was set back.
pub proof fn lemma_counters_grow(before: u64, now: u64)
    ensures
        now >= before ==> gained(before, now) == now - before,
        now < before ==> gained(before, now) == 0,
{
}

/// A sample holds what was read: each reading in its place, memory in whole megabytes, network rates as they
/// were calculated.
pub proof fn lemma_readings_in_place(c: RawCounters, net: NetRates)
    ensures
        ({
            let r = readings_from(c, net);
            let mb: int = 1_048_576;
            &&& r.mem_used_mb * mb <= c.mem_used_bytes < (r.mem_used_mb + 1) * mb
            &&& r.mem_total_mb * mb <= c.mem_total_bytes < (r.mem_total_mb + 1) * mb
            &&& r.mem_available_mb * mb <= c.mem_available_bytes < (r.mem_available_mb + 1) * mb
            &&& r.cpu_usage == c.cpu_usage && r.cpu_freq_mhz == c.cpu_freq_mhz && r.cpu_temp == c.cpu_temp
            &&& r.gpu_usage == c.gpu_usage && r.gpu_temp is None
            &&& r.mem_usage_percent == c.mem_usage_percent && r.swap_usage_percent == c.swap_usage_percent
            &&& r.commit_bytes == c.commit_bytes && r.commit_limit == c.commit_limit
            &&& r.page_reads_per_sec == c.page_reads_per_sec
            &&& r.disk_read_bps == c.disk_read_bps && r.disk_write_bps == c.disk_write_bps
            &&& r.disk_busy_percent == c.disk_busy_percent && r.disk_avg_io_ms == c.disk_avg_io_ms
            &&& r.dpc_percent == c.dpc_percent && r.interrupt_percent == c.interrupt_percent
            &&& r.context_switches_per_sec == c.context_switches_per_sec
            &&& r.net_sent_bps == net.sent && r.net_recv_bps == net.recv
            &&& r.net_sent_total == c.net_sent_total && r.net_recv_total == c.net_recv_total
            &&& r.process_count == c.process_count
        }),
{
}

/// The values of engines together; one without a value counts as idle.
pub open spec fn engines_sum(per_engine: Seq<Option<u64>>) -> int
    decreases per_engine.len(),
{
    if per_engine.len() == 0 {
        0
    } else {
        engines_sum(per_engine.drop_last()) + match per_engine.last() {
            Some(v) => v as int,
            None => 0,
        }
    }
}

/// The use of a GPU is that of its engines together, no more than a hundred, and not known without engines.
pub proof fn lemma_gpu_use(per_engine: Seq<Option<u64>>)
    ensures
        per_engine.len() == 0 ==> gpu_use(per_engine) is None,
        per_engine.len() > 0 && engines_sum(per_engine) <= 100 ==> gpu_use(per_engine) == Some(
            engines_sum(per_engine) as u64,
        ),
        per_engine.len() > 0 && engines_sum(per_engine) > 100 ==> gpu_use(per_engine) == Some(100u64),
{
    lemma_load(per_engine, per_engine.len() as int);
    assert(per_engine.take(per_engine.len() as int) =~= per_engine);
}

proof fn lemma_load(per_engine: Seq<Option<u64>>, n: int)
    requires
        0 <= n <= per_engine.len(),
    ensures
        engines_sum(per_engine.take(n)) >= 0,
        engines_sum(per_engine.take(n)) <= 0xffff_ffff_ffff_ffff ==> load_upto(per_engine, n) == engines_sum(per_engine.take(n)),
        engines_sum(per_engine.take(n)) > 0xffff_ffff_ffff_ffff ==> load_upto(per_engine, n) == 0xffff_ffff_ffff_ffff,
    decreases n,
{
    if n > 0 {
        lemma_load(per_engine, n - 1);
        assert(per_engine.take(n).drop_last() =~= per_engine.take(n - 1));
    }
}

/// A sample names the eight busiest processes and the eight largest, twelve at most.
pub proof fn lemma_sample_sizes()
    ensures
        TOP_BY_CPU == 8,
        TOP_BY_MEM == 8,
        TOP_MAX == 12,
{
}

/// Samples are written every ten ticks, old ones are removed every hour of ticks, and failures of the first
/// three ticks are noted in detail.
pub proof fn lemma_duties(count: int)
    ensures
        duties(count).flush <==> count % 10 == 0,
        duties(count).cleanup <==> count % 3600 == 0,
        duties(count).verbose <==> count <= 3,
{
}

/// A stop or a shutdown ends the loop; anything else leaves it as it is, and what is not known is refused.
pub proof fn lemma_control(state: LoopState, event: ControlEvent)
    ensures
        ({
            let (after, reply) = controlled(state, event);
            &&& event == ControlEvent::Stop || event == ControlEvent::Shutdown ==> !after.running && after.count == state.count
            &&& event == ControlEvent::Interrogate || event == ControlEvent::Other ==> after == state
            &&& reply == ControlReply::NotImplemented <==> event == ControlEvent::Other
        }),
{
}

/// The event log is searched from thirty seconds before a stutter began until now. Where the beginning is not
/// known, its end stands for it.
pub proof fn lemma_log_is_searched_from_the_beginning(e: EventModel, now_secs: i64)
    requires
        e.onset_ts is None ==> e.timestamp.secs >= -0x4000_0000_0000_0000,
    ensures
        window_searched(e, now_secs).until == now_secs,
        e.onset_ts is Some && e.onset_ts->0 >= 0 ==> window_searched(e, now_secs).since == e.onset_ts->0 as int / 1000 - 30,
        e.onset_ts is None ==> window_searched(e, now_secs).since == e.timestamp.secs - 30,
{
}

/// A heartbeat is good for five seconds: a younger one, or one from the future, shows a running service, and
/// an older one or one without a readable time a stale one. Without a heartbeat the service has stopped.
pub proof fn lemma_heartbeats(found: HeartbeatFound, now: Timestamp)
    ensures
        ({
            let h = health_of(found, now);
            match found {
                HeartbeatFound::NoDatabase => h.health == HeartbeatHealth::NoDatabase && h.last_ts is None && h.age_ms is None,
                HeartbeatFound::NoHeartbeat => h.health == HeartbeatHealth::Stopped && h.last_ts is None && h.age_ms is None,
                HeartbeatFound::Last(s) => {
                    let t = rfc3339_moment(s@);
                    let age = calendar_millis(t->0, now);
                    let known = t is Some && age is Some;
                    &&& h.last_ts == Some(s@)
                    &&& known && age->0 < 5000 ==> h.health == HeartbeatHealth::Running
                    &&& known && age->0 >= 5000 ==> h.health == HeartbeatHealth::Stale
                    &&& known && age->0 >= 0 ==> h.age_ms == age
                    &&& known && age->0 < 0 ==> h.age_ms == Some(0i64)
                    &&& !known ==> h.health == HeartbeatHealth::Stale && h.age_ms is None
                },
            }
        }),
{
}

/// A heartbeat is as old as the time from it to now: it ages with the clock, and is young where the clock has
/// not moved on.
pub proof fn lemma_heartbeats_age(beat: Timestamp, now: Timestamp, later: Timestamp)
    requires
        beat.nanos < 1_000_000_000 && now.nanos < 1_000_000_000 && later.nanos < 1_000_000_000,
        -62_167_219_200 <= beat.secs <= now.secs <= later.secs <= 253_402_300_799,
    ensures
        whole_millis(beat, beat) == 0,
        beat.secs + 1 <= now.secs ==> (now.secs - beat.secs - 1) * 1000 <= whole_millis(beat, now) < (now.secs - beat.secs + 1) * 1000,
        now.nanos == beat.nanos ==> whole_millis(beat, now) == (now.secs - beat.secs) * 1000,
        now.secs < later.secs ==> whole_millis(beat, now) <= whole_millis(beat, later),
{
}

/// The exit code of a status is zero for a running service, two for one that is not there, and one otherwise.
pub proof fn lemma_status_codes(s: ServiceStatusInfo, t: ScmState)
    ensures
        status_code(s) == (if s == ServiceStatusInfo::Running {
            0int
        } else if s == ServiceStatusInfo::NotFound {
            2
        } else {
            1
        }),
        state_code(t) == (if t == ScmState::Running {
            0int
        } else if t == ScmState::NotFound {
            2
        } else {
            1
        }),
        told_state(t) == ServiceStatusInfo::Running <==> t == ScmState::Running,
        told_state(t) == ServiceStatusInfo::NotFound <==> t == ScmState::NotFound,
        told_state(t) == ServiceStatusInfo::Stopped <==> t == ScmState::Stopped,
        told_state(t) == ServiceStatusInfo::StopPending <==> t == ScmState::StopPending,
        told_state(t) == ServiceStatusInfo::StartPending <==> t == ScmState::StartPending,
{
}

/// Where an action stands in a plan.
pub open spec fn before_in(plan: Seq<InstallAction>, a: InstallAction, b: InstallAction) -> bool {
    exists|i: int, j: int| 0 <= i < j < plan.len() && #[trigger] plan[i] == a && #[trigger] plan[j] == b
}

/// A new service gets its recovery and is started. One with the present program is started where it does not
/// run. One with another program is registered anew; where it runs it is stopped, waited for and then started.
pub proof fn lemma_install_plans(same: bool, running: bool)
    ensures
        ({
            let new = install_actions(InstallFound::Created);
            let p = install_actions(InstallFound::Existing(same, running));
            &&& new.len() == 2 && before_in(new, InstallAction::EnsureRecovery, InstallAction::Start)
            &&& p.contains(InstallAction::ChangeConfig) <==> !same
            &&& p.contains(InstallAction::Start) <==> !(same && running)
            &&& !same && running ==> p.len() == 4 && before_in(p, InstallAction::ChangeConfig, InstallAction::Stop) && before_in(
                p,
                InstallAction::Stop,
                InstallAction::AwaitStopped,
            ) && before_in(p, InstallAction::AwaitStopped, InstallAction::Start)
            &&& !same && !running ==> p.len() == 2 && before_in(p, InstallAction::ChangeConfig, InstallAction::Start)
            &&& same && !running ==> p.len() == 1
            &&& same && running ==> p.len() == 0
        }),
{
    let new = install_actions(InstallFound::Created);
    let p = install_actions(InstallFound::Existing(same, running));
    assert(new[0] == InstallAction::EnsureRecovery && new[1] == InstallAction::Start);
    if !same && running {
        assert(p[0] == InstallAction::ChangeConfig && p[1] == InstallAction::Stop);
        assert(p[2] == InstallAction::AwaitStopped && p[3] == InstallAction::Start);
    } else if !same {
        assert(p[0] == InstallAction::ChangeConfig && p[1] == InstallAction::Start);
    } else if !running {
        assert(p[0] == InstallAction::Start);
    }
}

/// Both slashes separate paths alike, and nothing else is changed.
pub proof fn lemma_slashes(s: Seq<char>)
    ensures
        backslashed(s).len() == s.len(),
        forall|i: int| 0 <= i < s.len() && s[i] == '/' ==> #[trigger] backslashed(s)[i] == '\\',
        forall|i: int| 0 <= i < s.len() && s[i] != '/' ==> #[trigger] backslashed(s)[i] == s[i],
{
}

/// The file is rewritten unless that was not wanted, where pages are free and at least a twentieth of all.
pub proof fn lemma_when_the_file_is_rewritten(skip: bool, free: i64, pages: i64)
    requires
        free >= 0,
        pages >= 1,
    ensures
        vacuum_choice(skip, free, pages) == VacuumChoice::SkippedByRequest <==> skip,
        vacuum_choice(skip, free, pages) == VacuumChoice::Run <==> !skip && free > 0 && free * 100 >= pages * 5,
{
}

/// A tick begins only while the loop runs; it is counted, and owes what its number says. A loop that was asked to
/// stop begins no tick more.
pub proof fn lemma_ticks_begin_while_running(state: LoopState, event: ControlEvent)
    requires
        state.count < u64::MAX,
    ensures
        state.running ==> begun(state).0 == (LoopState { running: true, count: (state.count + 1) as u64 }) && begun(state).1 == Some(
            duties(state.count + 1),
        ),
        !state.running ==> begun(state) == (state, None::<TickDuties>),
        event == ControlEvent::Stop || event == ControlEvent::Shutdown ==> begun(controlled(state, event).0).1 is None,
{
}

/// The status command ends as the state says, and with three where the state could not be found out.
pub proof fn lemma_status_command(s: ServiceStatusInfo)
    ensures
        command_code(None) == 3,
        s == ServiceStatusInfo::Running ==> command_code(Some(s)) == 0,
        s == ServiceStatusInfo::NotFound ==> command_code(Some(s)) == 2,
        s != ServiceStatusInfo::Running && s != ServiceStatusInfo::NotFound ==> command_code(Some(s)) == 1,
{
}

/// Rights are not raised on another system or for a program that is not there, and the user's refusal is told from
/// other failures.
pub proof fn lemma_early_refusals(windows: bool, exists: bool, code: u32)
    ensures
        refusal(windows, exists) is None <==> windows && exists,
        !windows ==> refusal(windows, exists) == Some(ElevateOutcome::Unsupported),
        windows && !exists ==> refusal(windows, exists) == Some(ElevateOutcome::ShellFailed(0)),
        was_denied(code) <==> code == 1223 || code == 0x8007_0000 + 1223,
{
}

/// A monitor notes the handles of every sighted process, behind those before, and gives the events of its
/// detector. Once an event is concluded the handles are forgotten, and nothing else.
pub proof fn lemma_monitors(m: MonitorModel, sample: SampleModel, f: Figures, now: Clock, frozen: bool, pid: u32)
    ensures
        ({
            let (next, e) = monitored(m, sample, f, now, frozen);
            &&& counts_for(next.handles, pid) == counts_for(m.handles, pid) + counts_in(sample.top_processes, pid)
            &&& (next.detector, e) == tick(m.detector, sample, f, now, frozen)
            &&& counts_for(cleared(m).handles, pid).len() == 0
            &&& cleared(m).detector == m.detector
        }),
{
    let procs = sample.top_processes;
    lemma_counts_gather(m.handles, procs, procs.len() as int, pid);
    assert(procs.take(procs.len() as int) =~= procs);
}

/// Two readings of counters that grow tell in turn how much they grew, together as much as from the first to the
/// last; what is sent and what is received are told apart.
pub proof fn lemma_network_rates(s: Schedule, sent: u64, recv: u64, sent2: u64, recv2: u64)
    requires
        s.prev_net_sent <= sent <= sent2,
        s.prev_net_recv <= recv <= recv2,
    ensures
        ({
            let (s1, a) = net_read(s, sent, recv);
            let (s2, b) = net_read(s1, sent2, recv2);
            &&& a.sent + b.sent == sent2 - s.prev_net_sent
            &&& a.recv + b.recv == recv2 - s.prev_net_recv
            &&& s2.tick == s.tick
        }),
{
}

/// The counters of a process tell how much they grew since they were last read, read and written apart; a process
/// that was not read before tells nothing, and no other process is touched.
pub proof fn lemma_process_rates(known: Map<u32, (u64, u64)>, pid: u32, other: u32, r: u64, w: u64, r2: u64, w2: u64)
    requires
        r <= r2,
        w <= w2,
        other != pid,
    ensures
        ({
            let (m1, a) = io_read(known, pid, r, w);
            let (m2, b) = io_read(m1, pid, r2, w2);
            &&& a is None <==> !known.contains_key(pid)
            &&& b == Some(((r2 - r) as u64, (w2 - w) as u64))
            &&& m2.contains_key(other) == known.contains_key(other)
            &&& known.contains_key(other) ==> m2[other] == known[other]
        }),
{
}

} // verus!
