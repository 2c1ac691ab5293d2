//! What is collected at a tick, and what is made of the counters.

use crate::level::{sort_key, Level};
use crate::order::{ascending, ascending_order, lemma_ascending, positions, reordered};
use crate::text::opt_text;
use crate::types::{
    by_cpu, by_mem, distinct_pids, falling_cpu_keys, falling_mem_keys, first_of, has_pid, merged, top_merged, ProcessBrief,
    ProcessModel, Readings,
};
use std::collections::HashMap;
use vstd::prelude::*;

verus! {

/// Every how many ticks processes are refreshed outside a stutter.
pub const PROCESS_REFRESH_EVERY_TICKS: u32 = 5;

/// Every how many ticks clock and temperature are read.
pub const SLOW_FREQ_TEMP_TICKS: u32 = 5;

/// Every how many ticks the GPU is read.
pub const SLOW_GPU_TICKS: u32 = 15;

/// What a tick collects besides the fast counters.
#[derive(Clone, Copy, Debug, PartialEq, Eq, Structural)]
pub struct TickPlan {
    pub refresh_processes: bool,
    pub freq_temp: bool,
    pub gpu: bool,
    pub top_processes: bool,
}

/// What tick number `tick` collects.
pub open spec fn planned(tick: u32, need_processes: bool) -> TickPlan {
    TickPlan {
        refresh_processes: need_processes || tick % PROCESS_REFRESH_EVERY_TICKS == 0,
        freq_temp: tick % SLOW_FREQ_TEMP_TICKS == 0,
        gpu: tick % SLOW_GPU_TICKS == 0,
        top_processes: need_processes,
    }
}

/// The bytes sent and received since the last tick.
#[derive(Clone, Copy, Debug, PartialEq, Eq, Structural)]
pub struct NetRates {
    pub sent: u64,
    pub recv: u64,
}

/// What has come since a counter was last read; nothing where it fell.
pub open spec fn gained(before: u64, now: u64) -> u64 {
    if now >= before {
        (now - before) as u64
    } else {
        0
    }
}

/// The counting of a collector between ticks.
#[derive(Clone, Copy, Debug, PartialEq, Eq, Structural)]
pub struct Schedule {
    pub tick: u32,
    pub prev_net_sent: u64,
    pub prev_net_recv: u64,
}

/// The number of the next tick; it starts again from zero after the last one.
pub open spec fn next_tick(tick: u32) -> u32 {
    if tick == u32::MAX {
        0
    } else {
        (tick + 1) as u32
    }
}

/// The schedule once the network counters were read, and how much they grew.
pub open spec fn net_read(s: Schedule, sent: u64, recv: u64) -> (Schedule, NetRates) {
    (
        Schedule { prev_net_sent: sent, prev_net_recv: recv, ..s },
        NetRates { sent: gained(s.prev_net_sent, sent), recv: gained(s.prev_net_recv, recv) },
    )
}

impl Schedule {
    /// The counting from the first tick on, with the totals of the network at that time.
    pub fn new(net_sent_total: u64, net_recv_total: u64) -> (s: Schedule)
        ensures
            s == (Schedule { tick: 0, prev_net_sent: net_sent_total, prev_net_recv: net_recv_total }),
    {
        Schedule { tick: 0, prev_net_sent: net_sent_total, prev_net_recv: net_recv_total }
    }

    /// Starts a tick and says what it collects.
    pub fn begin(&mut self, need_processes: bool) -> (plan: TickPlan)
        ensures
            plan == planned(old(self).tick, need_processes),
            *final(self) == (Schedule { tick: next_tick(old(self).tick), ..*old(self) }),
    {
        let tick = self.tick;
        self.tick = if tick == u32::MAX {
            0
        } else {
            tick + 1
        };
        TickPlan {
            refresh_processes: need_processes || tick % PROCESS_REFRESH_EVERY_TICKS == 0,
            freq_temp: tick % SLOW_FREQ_TEMP_TICKS == 0,
            gpu: tick % SLOW_GPU_TICKS == 0,
            top_processes: need_processes,
        }
    }

    /// Takes the totals of the network in and gives what came since the last tick.
    pub fn net_rates(&mut self, net_sent_total: u64, net_recv_total: u64) -> (r: NetRates)
        ensures
            r == (NetRates {
                sent: gained(old(self).prev_net_sent, net_sent_total),
                recv: gained(old(self).prev_net_recv, net_recv_total),
            }),
            *final(self) == (Schedule {
                tick: old(self).tick,
                prev_net_sent: net_sent_total,
                prev_net_recv: net_recv_total,
            }),
            (*final(self), r) == net_read(*old(self), net_sent_total, net_recv_total),
    {
        let r = NetRates {
            sent: net_sent_total.saturating_sub(self.prev_net_sent),
            recv: net_recv_total.saturating_sub(self.prev_net_recv),
        };
        self.prev_net_sent = net_sent_total;
        self.prev_net_recv = net_recv_total;
        r
    }
}

/// The counters of a tick as they were read.
#[derive(Clone, Copy, Debug, PartialEq, Eq)]
pub struct RawCounters {
    pub cpu_usage: Level,
    pub cpu_freq_mhz: Option<Level>,
    pub cpu_temp: Option<Level>,
    pub gpu_usage: Option<Level>,
    pub mem_total_bytes: u64,
    pub mem_used_bytes: u64,
    pub mem_available_bytes: u64,
    pub mem_usage_percent: Level,
    pub swap_usage_percent: Level,
    pub commit_bytes: u64,
    pub commit_limit: u64,
    pub page_reads_per_sec: Level,
    pub disk_read_bps: u64,
    pub disk_write_bps: u64,
    pub disk_busy_percent: Level,
    pub disk_avg_io_ms: Level,
    pub dpc_percent: Level,
    pub interrupt_percent: Level,
    pub context_switches_per_sec: Level,
    pub net_sent_total: u64,
    pub net_recv_total: u64,
    pub process_count: usize,
}

/// The readings of a tick.
pub open spec fn readings_from(c: RawCounters, net: NetRates) -> Readings {
    Readings {
        cpu_usage: c.cpu_usage,
        cpu_freq_mhz: c.cpu_freq_mhz,
        mem_usage_percent: c.mem_usage_percent,
        mem_used_mb: c.mem_used_bytes / 1_048_576,
        mem_total_mb: c.mem_total_bytes / 1_048_576,
        mem_available_mb: c.mem_available_bytes / 1_048_576,
        swap_usage_percent: c.swap_usage_percent,
        commit_bytes: c.commit_bytes,
        commit_limit: c.commit_limit,
        page_reads_per_sec: c.page_reads_per_sec,
        disk_read_bps: c.disk_read_bps,
        disk_write_bps: c.disk_write_bps,
        disk_busy_percent: c.disk_busy_percent,
        disk_avg_io_ms: c.disk_avg_io_ms,
        dpc_percent: c.dpc_percent,
        interrupt_percent: c.interrupt_percent,
        context_switches_per_sec: c.context_switches_per_sec,
        net_sent_bps: net.sent,
        net_recv_bps: net.recv,
        net_sent_total: c.net_sent_total,
        net_recv_total: c.net_recv_total,
        gpu_usage: c.gpu_usage,
        cpu_temp: c.cpu_temp,
        gpu_temp: None,
        process_count: c.process_count,
        thread_count: 0,
    }
}

/// The readings of a tick from its counters.
pub fn assemble(c: &RawCounters, net: NetRates) -> (r: Readings)
    ensures
        r == readings_from(*c, net),
{
    Readings {
        cpu_usage: c.cpu_usage,
        cpu_freq_mhz: c.cpu_freq_mhz,
        mem_usage_percent: c.mem_usage_percent,
        mem_used_mb: c.mem_used_bytes / 1_048_576,
        mem_total_mb: c.mem_total_bytes / 1_048_576,
        mem_available_mb: c.mem_available_bytes / 1_048_576,
        swap_usage_percent: c.swap_usage_percent,
        commit_bytes: c.commit_bytes,
        commit_limit: c.commit_limit,
        page_reads_per_sec: c.page_reads_per_sec,
        disk_read_bps: c.disk_read_bps,
        disk_write_bps: c.disk_write_bps,
        disk_busy_percent: c.disk_busy_percent,
        disk_avg_io_ms: c.disk_avg_io_ms,
        dpc_percent: c.dpc_percent,
        interrupt_percent: c.interrupt_percent,
        context_switches_per_sec: c.context_switches_per_sec,
        net_sent_bps: net.sent,
        net_recv_bps: net.recv,
        net_sent_total: c.net_sent_total,
        net_recv_total: c.net_recv_total,
        gpu_usage: c.gpu_usage,
        cpu_temp: c.cpu_temp,
        gpu_temp: None,
        process_count: c.process_count,
        thread_count: 0,
    }
}

/// A process to choose from: its id, its CPU use and its memory.
pub type Pick = (u32, Level, u64);

/// Picks by falling CPU use, equal ones as they came.
pub open spec fn picks_by_cpu(picks: Seq<Pick>) -> Seq<Pick> {
    reordered(picks, ascending(Seq::new(picks.len(), |i: int| (-sort_key(picks[i].1)) as i128)))
}

/// Picks by falling memory, equal ones as they came.
pub open spec fn picks_by_mem(picks: Seq<Pick>) -> Seq<Pick> {
    reordered(picks, ascending(Seq::new(picks.len(), |i: int| (-(picks[i].2 as int)) as i128)))
}

/// The ids of picks.
pub open spec fn ids_of(picks: Seq<Pick>) -> Seq<u32> {
    Seq::new(picks.len(), |i: int| picks[i].0)
}

/// Chosen ids with those of further picks that are new, until `max` are chosen.
pub open spec fn filled_up(chosen: Seq<u32>, rest: Seq<Pick>, max: int) -> Seq<u32>
    decreases rest.len(),
{
    if rest.len() == 0 {
        chosen
    } else {
        let more = if chosen.contains(rest[0].0) {
            chosen
        } else {
            chosen.push(rest[0].0)
        };
        if more.len() >= max {
            more
        } else {
            filled_up(more, rest.skip(1), max)
        }
    }
}

/// The ids of the top processes: the first by CPU, then those by memory that are new, at most `max`.
pub open spec fn top_pids(picks: Seq<Pick>, cpu_take: int, mem_take: int, max: int) -> Seq<u32> {
    let ranked = picks_by_cpu(picks);
    first_of(
        filled_up(ids_of(first_of(ranked, cpu_take)), first_of(picks_by_mem(ranked), mem_take), max),
        max,
    )
}

fn reorder_picks(picks: &Vec<Pick>, keys: &Vec<i128>) -> (r: Vec<Pick>)
    requires
        keys@.len() == picks@.len(),
    ensures
        r@ == reordered(picks@, ascending(keys@)),
{
    let order = ascending_order(keys);
    let ghost whole = reordered(picks@, positions(order@));
    let mut r: Vec<Pick> = Vec::new();
    let mut i: usize = 0;
    while i < order.len()
        invariant
            i <= order@.len(),
            forall|i: int| 0 <= i < order@.len() ==> #[trigger] order@[i] < picks@.len(),
            whole == reordered(picks@, positions(order@)),
            r@ == whole.take(i as int),
        decreases order@.len() - i,
    {
        r.push(picks[order[i]]);
        i += 1;
        proof {
            assert(r@ =~= whole.take(i as int));
        }
    }
    proof {
        assert(r@ =~= whole);
    }
    r
}

fn sort_picks(picks: &Vec<Pick>, by_cpu: bool) -> (r: Vec<Pick>)
    ensures
        r@ == if by_cpu {
            picks_by_cpu(picks@)
        } else {
            picks_by_mem(picks@)
        },
{
    let ghost want = if by_cpu {
        Seq::new(picks@.len(), |i: int| (-sort_key(picks@[i].1)) as i128)
    } else {
        Seq::new(picks@.len(), |i: int| (-(picks@[i].2 as int)) as i128)
    };
    let mut keys: Vec<i128> = Vec::new();
    let mut i: usize = 0;
    while i < picks.len()
        invariant
            i <= picks@.len(),
            want.len() == picks@.len(),
            by_cpu ==> want == Seq::new(picks@.len(), |i: int| (-sort_key(picks@[i].1)) as i128),
            !by_cpu ==> want == Seq::new(picks@.len(), |i: int| (-(picks@[i].2 as int)) as i128),
            keys@ == want.take(i as int),
        decreases picks@.len() - i,
    {
        let k: i128 = if by_cpu {
            -picks[i].1.key()
        } else {
            -(picks[i].2 as i128)
        };
        keys.push(k);
        i += 1;
        proof {
            assert(keys@ =~= want.take(i as int));
        }
    }
    proof {
        assert(keys@ =~= want);
    }
    reorder_picks(picks, &keys)
}

fn holds_id(ids: &Vec<u32>, id: u32) -> (r: bool)
    ensures
        r == ids@.contains(id),
{
    let mut i: usize = 0;
    while i < ids.len()
        invariant
            i <= ids@.len(),
            forall|j: int| 0 <= j < i ==> ids@[j] != id,
        decreases ids@.len() - i,
    {
        if ids[i] == id {
            proof {
                assert(ids@[i as int] == id);
            }
            return true;
        }
        i += 1;
    }
    false
}

/// The ids of the top processes: the first by CPU, then those by memory that are new, at most `max`.
pub fn select_top_pid_order(picks: Vec<Pick>, cpu_take: usize, mem_take: usize, max: usize) -> (r: Vec<u32>)
    ensures
        r@ == top_pids(picks@, cpu_take as int, mem_take as int, max as int),
{
    let ranked = sort_picks(&picks, true);
    let heavy = sort_picks(&ranked, false);
    let cpu_n: usize = if cpu_take < ranked.len() {
        cpu_take
    } else {
        ranked.len()
    };
    let mem_n: usize = if mem_take < heavy.len() {
        mem_take
    } else {
        heavy.len()
    };
    let ghost leaders = ids_of(first_of(ranked@, cpu_take as int));
    let ghost rest = first_of(heavy@, mem_take as int);
    let mut chosen: Vec<u32> = Vec::new();
    let mut i: usize = 0;
    while i < cpu_n
        invariant
            i <= cpu_n <= ranked@.len(),
            leaders.len() == cpu_n,
            leaders == ids_of(ranked@.take(cpu_n as int)),
            chosen@ == leaders.take(i as int),
        decreases cpu_n - i,
    {
        chosen.push(ranked[i].0);
        i += 1;
        proof {
            assert(chosen@ =~= leaders.take(i as int));
        }
    }
    proof {
        assert(chosen@ =~= leaders);
        assert(rest.skip(0) =~= rest);
    }
    let mut full = false;
    let mut k: usize = 0;
    while k < mem_n && !full
        invariant
            k <= mem_n <= heavy@.len(),
            rest.len() == mem_n,
            rest == heavy@.take(mem_n as int),
            if full {
                chosen@ == filled_up(leaders, rest, max as int)
            } else {
                filled_up(chosen@, rest.skip(k as int), max as int) == filled_up(leaders, rest, max as int)
            },
        decreases mem_n - k,
    {
        let ghost ahead = rest.skip(k as int);
        proof {
            assert(ahead[0] == heavy@[k as int]);
            assert(ahead.skip(1) =~= rest.skip(k + 1));
        }
        if !holds_id(&chosen, heavy[k].0) {
            chosen.push(heavy[k].0);
        }
        if chosen.len() >= max {
            full = true;
        }
        k += 1;
    }
    let ghost all = chosen@;
    if chosen.len() > max {
        chosen.truncate(max);
        proof {
            assert(chosen@ =~= all.take(max as int));
        }
    }
    chosen
}

/// How many top processes are taken by CPU.
pub const TOP_BY_CPU: usize = 8;

/// How many top processes are taken by memory.
pub const TOP_BY_MEM: usize = 8;

/// How many top processes a sample holds at most.
pub const TOP_MAX: usize = 12;

/// The ids of the top processes of a sample.
pub fn sample_top_pids(picks: Vec<Pick>) -> (r: Vec<u32>)
    ensures
        r@ == top_pids(picks@, TOP_BY_CPU as int, TOP_BY_MEM as int, TOP_MAX as int),
{
    select_top_pid_order(picks, TOP_BY_CPU, TOP_BY_MEM, TOP_MAX)
}

/// Processes as candidates.
pub open spec fn picks_of(all: Seq<ProcessModel>) -> Seq<Pick> {
    Seq::new(all.len(), |i: int| (all[i].pid, all[i].cpu_usage, all[i].mem_used_mb))
}

/// The ids of processes.
pub open spec fn pids_of(all: Seq<ProcessModel>) -> Seq<u32> {
    Seq::new(all.len(), |i: int| all[i].pid)
}

proof fn lemma_filled_like_merged(found: Seq<ProcessModel>, rest: Seq<ProcessModel>, max: int)
    requires
        found.len() < max,
    ensures
        filled_up(pids_of(found), picks_of(rest), max) == pids_of(merged(found, rest, max)),
        merged(found, rest, max).len() <= max,
    decreases rest.len(),
{
    if rest.len() > 0 {
        let pid = rest[0].pid;
        let ids = pids_of(found);
        assert(picks_of(rest)[0].0 == pid);
        assert(picks_of(rest).skip(1) =~= picks_of(rest.skip(1)));
        if has_pid(found, pid) {
            let i = choose|i: int| 0 <= i < found.len() && (#[trigger] found[i]).pid == pid;
            assert(ids[i] == pid);
            lemma_filled_like_merged(found, rest.skip(1), max);
        } else {
            if ids.contains(pid) {
                let i = choose|i: int| 0 <= i < ids.len() && ids[i] == pid;
                assert(found[i].pid == pid);
            }
            assert(ids.push(pid) =~= pids_of(found.push(rest[0])));
            if found.len() + 1 < max {
                lemma_filled_like_merged(found.push(rest[0]), rest.skip(1), max);
            } else {
                assert(merged(found.push(rest[0]), rest.skip(1), max) == found.push(rest[0]));
            }
        }
    }
}

proof fn lemma_filled_extends(chosen: Seq<u32>, rest: Seq<Pick>, max: int)
    ensures
        chosen.is_prefix_of(filled_up(chosen, rest, max)),
    decreases rest.len(),
{
    if rest.len() > 0 {
        let more = if chosen.contains(rest[0].0) {
            chosen
        } else {
            chosen.push(rest[0].0)
        };
        lemma_filled_extends(more, rest.skip(1), max);
    }
}

/// Members of `rest` that are new and differ from each other are taken one by one.
proof fn lemma_merged_takes(found: Seq<ProcessModel>, new: Seq<ProcessModel>, rest: Seq<ProcessModel>, max: int)
    requires
        distinct_pids(found + new),
        found.len() <= max,
    ensures
        found.len() + new.len() < max ==> merged(found, new + rest, max) == merged(found + new, rest, max),
        found.len() + new.len() >= max ==> merged(found, new + rest, max) == (found + new).take(max),
    decreases new.len(),
{
    let all = new + rest;
    if found.len() >= max {
        assert((found + new).take(max) =~= found);
    } else if new.len() == 0 {
        assert(all =~= rest);
        assert(found + new =~= found);
    } else {
        assert(all[0] == new[0]);
        if has_pid(found, new[0].pid) {
            let i = choose|i: int| 0 <= i < found.len() && (#[trigger] found[i]).pid == new[0].pid;
            assert((found + new)[i] == found[i]);
            assert((found + new)[found.len() as int] == new[0]);
        }
        let more = found.push(new[0]);
        assert(all.skip(1) =~= new.skip(1) + rest);
        assert(more + new.skip(1) =~= found + new);
        lemma_merged_takes(more, new.skip(1), rest, max);
    }
}

/// The choice of candidates agrees with the merge of whole processes: among processes with ids of
/// their own, both name the same ones in the same order.
pub proof fn lemma_picks_rank_like_processes(all: Seq<ProcessModel>, cpu_take: int, mem_take: int, max: int)
    requires
        distinct_pids(all),
        cpu_take >= 0,
        mem_take >= 0,
        max >= 0,
    ensures
        top_pids(picks_of(all), cpu_take, mem_take, max) == pids_of(top_merged(all, cpu_take, mem_take, max)),
{
    let picks = picks_of(all);
    let ranked = by_cpu(all);
    let cpu_keys = falling_cpu_keys(all);
    lemma_ascending(cpu_keys);
    assert(Seq::new(picks.len(), |i: int| (-sort_key(picks[i].1)) as i128) =~= cpu_keys);
    assert(picks_by_cpu(picks) =~= picks_of(ranked));
    let mem_keys = falling_mem_keys(ranked);
    lemma_ascending(mem_keys);
    let ranked_picks = picks_of(ranked);
    assert(Seq::new(ranked_picks.len(), |i: int| (-(ranked_picks[i].2 as int)) as i128) =~= mem_keys);
    let heavy = by_mem(ranked);
    assert(picks_by_mem(ranked_picks) =~= picks_of(heavy));
    let first = first_of(ranked, cpu_take);
    let rest = first_of(heavy, mem_take);
    assert(first_of(ranked_picks, cpu_take) =~= picks_of(first));
    assert(first_of(picks_of(heavy), mem_take) =~= picks_of(rest));
    assert(ids_of(picks_of(first)) =~= pids_of(first));
    assert(distinct_pids(Seq::<ProcessModel>::empty() + first)) by {
        assert forall|i: int, j: int| 0 <= i < j < first.len() implies first[i].pid != first[j].pid by {
            let order = ascending(cpu_keys);
            assert(first[i] == all[order[i]]);
            assert(first[j] == all[order[j]]);
            assert(order[i] != order[j]);
            if order[i] < order[j] {
                assert(all[order[i]].pid != all[order[j]].pid);
            } else {
                assert(all[order[j]].pid != all[order[i]].pid);
            }
        }
    }
    lemma_merged_takes(seq![], first, rest, max);
    assert(Seq::<ProcessModel>::empty() + first =~= first);
    let chosen = filled_up(pids_of(first), picks_of(rest), max);
    if first.len() < max {
        lemma_filled_like_merged(first, rest, max);
        assert(first_of(chosen, max) =~= chosen);
    } else {
        lemma_filled_extends(pids_of(first), picks_of(rest), max);
        assert(first_of(chosen, max) =~= pids_of(first.take(max)));
    }
}

/// The load of all engines together, held to the largest number.
pub open spec fn load_upto(per_engine: Seq<Option<u64>>, n: int) -> int
    decreases n,
{
    if n <= 0 {
        0
    } else {
        let here = match per_engine[n - 1] {
            Some(v) => v as int,
            None => 0,
        };
        let sum = load_upto(per_engine, n - 1) + here;
        if sum > u64::MAX {
            u64::MAX as int
        } else {
            sum
        }
    }
}

/// The use of a GPU in percent.
pub open spec fn gpu_use(per_engine: Seq<Option<u64>>) -> Option<u64> {
    let load = load_upto(per_engine, per_engine.len() as int);
    if per_engine.len() == 0 {
        None
    } else if load > 100 {
        Some(100)
    } else {
        Some(load as u64)
    }
}

/// The use of a GPU in percent: the load of all engines together, at most a hundred; none where no
/// engine is known. An engine without a value counts as idle.
pub fn aggregate_gpu_utilization(per_engine: &[Option<u64>]) -> (r: Option<u64>)
    ensures
        r == gpu_use(per_engine@),
{
    if per_engine.len() == 0 {
        return None;
    }
    let mut sum: u64 = 0;
    let mut i: usize = 0;
    while i < per_engine.len()
        invariant
            i <= per_engine@.len(),
            sum == load_upto(per_engine@, i as int),
        decreases per_engine@.len() - i,
    {
        let here: u64 = match per_engine[i] {
            Some(v) => v,
            None => 0,
        };
        sum = sum.saturating_add(here);
        i += 1;
    }
    Some(
        if sum > 100 {
            100
        } else {
            sum
        },
    )
}

/// What is known of a process besides its use of CPU and memory.
#[derive(Debug)]
pub struct ProcessFingerprint {
    pub exe_path: Option<String>,
    pub handle_count: Option<u32>,
    pub gdi_objects: Option<u32>,
    pub user_objects: Option<u32>,
    pub io_read_bps: Option<u64>,
    pub io_write_bps: Option<u64>,
}

impl ProcessFingerprint {
    /// Writes what is known into the brief of the process.
    pub fn apply_to(&self, p: &mut ProcessBrief)
        ensures
            final(p)@ == (ProcessModel {
                exe_path: opt_text(self.exe_path),
                handle_count: self.handle_count,
                gdi_objects: self.gdi_objects,
                user_objects: self.user_objects,
                io_read_bps: self.io_read_bps,
                io_write_bps: self.io_write_bps,
                ..old(p)@
            }),
    {
        p.exe_path = match &self.exe_path {
            Some(s) => Some(s.clone()),
            None => None,
        };
        p.handle_count = self.handle_count;
        p.gdi_objects = self.gdi_objects;
        p.user_objects = self.user_objects;
        p.io_read_bps = self.io_read_bps;
        p.io_write_bps = self.io_write_bps;
    }
}

/// The bytes that processes had read and written when they were last looked at.
#[derive(Debug)]
pub struct ProcessFingerprintSampler {
    io_prev: HashMap<u32, (u64, u64)>,
}

impl View for ProcessFingerprintSampler {
    type V = Map<u32, (u64, u64)>;

    closed spec fn view(&self) -> Map<u32, (u64, u64)> {
        self.io_prev@
    }
}

/// The counters of processes once one was read, and how much they grew since it was last read.
pub open spec fn io_read(known: Map<u32, (u64, u64)>, pid: u32, read: u64, written: u64) -> (
    Map<u32, (u64, u64)>,
    Option<(u64, u64)>,
) {
    (
        known.insert(pid, (read, written)),
        if known.contains_key(pid) {
            Some((gained(known[pid].0, read), gained(known[pid].1, written)))
        } else {
            None
        },
    )
}

impl ProcessFingerprintSampler {
    /// A sampler that has looked at no process.
    pub fn new() -> (s: ProcessFingerprintSampler)
        ensures
            s@ == Map::<u32, (u64, u64)>::empty(),
    {
        ProcessFingerprintSampler { io_prev: HashMap::new() }
    }

    /// What a process has read and written since it was last looked at; none the first time.
    pub fn io_since(&mut self, pid: u32, read: u64, written: u64) -> (r: Option<(u64, u64)>)
        ensures
            final(self)@ == old(self)@.insert(pid, (read, written)),
            (final(self)@, r) == io_read(old(self)@, pid, read, written),
            r == (if old(self)@.contains_key(pid) {
                Some((gained(old(self)@[pid].0, read), gained(old(self)@[pid].1, written)))
            } else {
                None
            }),
    {
        broadcast use vstd::std_specs::hash::group_hash_axioms;

        let r = match self.io_prev.get(&pid) {
            Some(p) => Some((read.saturating_sub(p.0), written.saturating_sub(p.1))),
            None => None,
        };
        self.io_prev.insert(pid, (read, written));
        r
    }
}

} // verus!
