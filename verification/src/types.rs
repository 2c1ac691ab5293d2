//! Samples, processes, causes and events.

use crate::level::{sort_key, Level};
use crate::order::{ascending, ascending_order, lemma_ascending, lemma_position, positions, reordered};
use vstd::prelude::*;

verus! {

/// A moment in UTC: whole seconds since the Unix epoch and the nanoseconds within the second.
#[derive(Clone, Copy, Debug, PartialEq, Eq, Structural)]
pub struct Timestamp {
    pub secs: i64,
    pub nanos: u32,
}

/// The numbers of one sample.
#[derive(Clone, Copy, Debug, PartialEq, Eq)]
pub struct Readings {
    pub cpu_usage: Level,
    pub cpu_freq_mhz: Option<Level>,
    pub mem_usage_percent: Level,
    pub mem_used_mb: u64,
    pub mem_total_mb: u64,
    pub mem_available_mb: u64,
    pub swap_usage_percent: Level,
    /// Committed virtual memory; shown, and evidence of memory pressure, never a cause.
    pub commit_bytes: u64,
    pub commit_limit: u64,
    /// Pages read from disk per second because of hard faults.
    pub page_reads_per_sec: Level,
    pub disk_read_bps: u64,
    pub disk_write_bps: u64,
    pub disk_busy_percent: Level,
    /// Average time of one disk transfer in milliseconds.
    pub disk_avg_io_ms: Level,
    pub dpc_percent: Level,
    pub interrupt_percent: Level,
    pub context_switches_per_sec: Level,
    pub net_sent_bps: u64,
    pub net_recv_bps: u64,
    pub net_sent_total: u64,
    pub net_recv_total: u64,
    pub gpu_usage: Option<Level>,
    pub cpu_temp: Option<Level>,
    pub gpu_temp: Option<Level>,
    pub process_count: usize,
    pub thread_count: usize,
}

/// Readings of an idle machine of unknown size: all zero, nothing measured slowly.
pub open spec fn idle_readings() -> Readings {
    Readings {
        cpu_usage: Level::At(0),
        cpu_freq_mhz: None,
        mem_usage_percent: Level::At(0),
        mem_used_mb: 0,
        mem_total_mb: 0,
        mem_available_mb: 0,
        swap_usage_percent: Level::At(0),
        commit_bytes: 0,
        commit_limit: 0,
        page_reads_per_sec: Level::At(0),
        disk_read_bps: 0,
        disk_write_bps: 0,
        disk_busy_percent: Level::At(0),
        disk_avg_io_ms: Level::At(0),
        dpc_percent: Level::At(0),
        interrupt_percent: Level::At(0),
        context_switches_per_sec: Level::At(0),
        net_sent_bps: 0,
        net_recv_bps: 0,
        net_sent_total: 0,
        net_recv_total: 0,
        gpu_usage: None,
        cpu_temp: None,
        gpu_temp: None,
        process_count: 0,
        thread_count: 0,
    }
}

impl Default for Readings {
    fn default() -> (r: Readings)
        ensures
            r == idle_readings(),
    {
        Readings {
            cpu_usage: Level::At(0),
            cpu_freq_mhz: None,
            mem_usage_percent: Level::At(0),
            mem_used_mb: 0,
            mem_total_mb: 0,
            mem_available_mb: 0,
            swap_usage_percent: Level::At(0),
            commit_bytes: 0,
            commit_limit: 0,
            page_reads_per_sec: Level::At(0),
            disk_read_bps: 0,
            disk_write_bps: 0,
            disk_busy_percent: Level::At(0),
            disk_avg_io_ms: Level::At(0),
            dpc_percent: Level::At(0),
            interrupt_percent: Level::At(0),
            context_switches_per_sec: Level::At(0),
            net_sent_bps: 0,
            net_recv_bps: 0,
            net_sent_total: 0,
            net_recv_total: 0,
            gpu_usage: None,
            cpu_temp: None,
            gpu_temp: None,
            process_count: 0,
            thread_count: 0,
        }
    }
}

/// One sample of the system's metrics.
#[derive(Debug)]
pub struct Sample {
    pub timestamp: Timestamp,
    pub readings: Readings,
    pub cpu_per_core: Vec<Level>,
    /// The busiest processes by CPU and by memory; empty outside a stutter.
    pub top_processes: Vec<ProcessBrief>,
}

/// What a [`Sample`] holds.
pub struct SampleModel {
    pub timestamp: Timestamp,
    pub readings: Readings,
    pub cpu_per_core: Seq<Level>,
    pub top_processes: Seq<ProcessModel>,
}

impl View for Sample {
    type V = SampleModel;

    open spec fn view(&self) -> SampleModel {
        SampleModel {
            timestamp: self.timestamp,
            readings: self.readings,
            cpu_per_core: self.cpu_per_core@,
            top_processes: briefs(self.top_processes@),
        }
    }
}

impl Sample {
    /// A sample of an idle machine taken at `timestamp`.
    pub fn at(timestamp: Timestamp) -> (s: Sample)
        ensures
            s@ == (SampleModel {
                timestamp,
                readings: idle_readings(),
                cpu_per_core: seq![],
                top_processes: seq![],
            }),
    {
        let s = Sample {
            timestamp,
            readings: Readings::default(),
            cpu_per_core: Vec::new(),
            top_processes: Vec::new(),
        };
        proof {
            assert(s@.cpu_per_core =~= seq![]);
            assert(s@.top_processes =~= seq![]);
        }
        s
    }

    /// A copy.
    pub fn copy(&self) -> (s: Sample)
        ensures
            s@ == self@,
    {
        let mut cores: Vec<Level> = Vec::new();
        let mut i: usize = 0;
        while i < self.cpu_per_core.len()
            invariant
                i <= self.cpu_per_core@.len(),
                cores@ == self.cpu_per_core@.take(i as int),
            decreases self.cpu_per_core@.len() - i,
        {
            cores.push(self.cpu_per_core[i]);
            i += 1;
            proof {
                assert(cores@ =~= self.cpu_per_core@.take(i as int));
            }
        }
        proof {
            assert(self.cpu_per_core@.take(self.cpu_per_core@.len() as int) =~= self.cpu_per_core@);
        }
        Sample {
            timestamp: self.timestamp,
            readings: self.readings,
            cpu_per_core: cores,
            top_processes: copy_briefs(&self.top_processes),
        }
    }
}

/// What one process uses, as far as it was measured.
#[derive(Debug)]
pub struct ProcessBrief {
    pub pid: u32,
    pub name: String,
    pub cpu_usage: Level,
    pub mem_used_mb: u64,
    pub exe_path: Option<String>,
    pub handle_count: Option<u32>,
    pub gdi_objects: Option<u32>,
    pub user_objects: Option<u32>,
    pub io_read_bps: Option<u64>,
    pub io_write_bps: Option<u64>,
}

/// What a [`ProcessBrief`] holds.
pub struct ProcessModel {
    pub pid: u32,
    pub name: Seq<char>,
    pub cpu_usage: Level,
    pub mem_used_mb: u64,
    pub exe_path: Option<Seq<char>>,
    pub handle_count: Option<u32>,
    pub gdi_objects: Option<u32>,
    pub user_objects: Option<u32>,
    pub io_read_bps: Option<u64>,
    pub io_write_bps: Option<u64>,
}

impl View for ProcessBrief {
    type V = ProcessModel;

    open spec fn view(&self) -> ProcessModel {
        ProcessModel {
            pid: self.pid,
            name: self.name@,
            cpu_usage: self.cpu_usage,
            mem_used_mb: self.mem_used_mb,
            exe_path: match self.exe_path {
                Some(p) => Some(p@),
                None => None,
            },
            handle_count: self.handle_count,
            gdi_objects: self.gdi_objects,
            user_objects: self.user_objects,
            io_read_bps: self.io_read_bps,
            io_write_bps: self.io_write_bps,
        }
    }
}

/// What a list of processes holds.
pub open spec fn briefs(v: Seq<ProcessBrief>) -> Seq<ProcessModel> {
    Seq::new(v.len(), |i: int| v[i]@)
}

/// A process of which nothing is known.
pub open spec fn unknown_process() -> ProcessModel {
    ProcessModel {
        pid: 0,
        name: seq![],
        cpu_usage: Level::At(0),
        mem_used_mb: 0,
        exe_path: None,
        handle_count: None,
        gdi_objects: None,
        user_objects: None,
        io_read_bps: None,
        io_write_bps: None,
    }
}

impl Default for ProcessBrief {
    fn default() -> (r: ProcessBrief)
        ensures
            r@ == unknown_process(),
    {
        let r = ProcessBrief {
            pid: 0,
            name: String::new(),
            cpu_usage: Level::At(0),
            mem_used_mb: 0,
            exe_path: None,
            handle_count: None,
            gdi_objects: None,
            user_objects: None,
            io_read_bps: None,
            io_write_bps: None,
        };
        proof {
            assert(r@.name =~= seq![]);
        }
        r
    }
}

/// The CPU keys of processes, for an order by falling use.
pub open spec fn falling_cpu_keys(all: Seq<ProcessModel>) -> Seq<i128> {
    Seq::new(all.len(), |i: int| (-sort_key(all[i].cpu_usage)) as i128)
}

/// The memory keys of processes, for an order by falling use.
pub open spec fn falling_mem_keys(all: Seq<ProcessModel>) -> Seq<i128> {
    Seq::new(all.len(), |i: int| (-(all[i].mem_used_mb as int)) as i128)
}

/// Processes by falling CPU use, equal ones as they came.
pub open spec fn by_cpu(all: Seq<ProcessModel>) -> Seq<ProcessModel> {
    reordered(all, ascending(falling_cpu_keys(all)))
}

/// Processes by falling memory use, equal ones as they came.
pub open spec fn by_mem(all: Seq<ProcessModel>) -> Seq<ProcessModel> {
    reordered(all, ascending(falling_mem_keys(all)))
}

/// At most the first `n` members.
pub open spec fn first_of<T>(s: Seq<T>, n: int) -> Seq<T> {
    if n < s.len() {
        s.take(n)
    } else {
        s
    }
}

/// Whether a process with this id is in the list.
pub open spec fn has_pid(s: Seq<ProcessModel>, pid: u32) -> bool {
    exists|i: int| 0 <= i < s.len() && (#[trigger] s[i]).pid == pid
}

/// `found` extended from `rest`, each id once, until `max` are found.
pub open spec fn merged(found: Seq<ProcessModel>, rest: Seq<ProcessModel>, max: int) -> Seq<ProcessModel>
    decreases rest.len(),
{
    if rest.len() == 0 || found.len() >= max {
        found
    } else {
        let more = if has_pid(found, rest[0].pid) {
            found
        } else {
            found.push(rest[0])
        };
        merged(more, rest.skip(1), max)
    }
}

/// The candidates for a merge: the first by CPU, then the first by memory.
pub open spec fn top_candidates(all: Seq<ProcessModel>, cpu_take: int, mem_take: int) -> Seq<ProcessModel> {
    first_of(by_cpu(all), cpu_take) + first_of(by_mem(by_cpu(all)), mem_take)
}

/// The top processes by CPU and by memory, each id once, at most `max`.
pub open spec fn top_merged(all: Seq<ProcessModel>, cpu_take: int, mem_take: int, max: int) -> Seq<ProcessModel> {
    merged(seq![], top_candidates(all, cpu_take, mem_take), max)
}

/// Appends a process to a list.
pub fn push_brief(v: &mut Vec<ProcessBrief>, p: ProcessBrief)
    ensures
        briefs(final(v)@) == briefs(old(v)@).push(p@),
{
    v.push(p);
    proof {
        assert(briefs(v@) =~= briefs(old(v)@).push(p@));
    }
}

/// A copy of a list of processes.
pub fn copy_briefs(v: &Vec<ProcessBrief>) -> (r: Vec<ProcessBrief>)
    ensures
        briefs(r@) == briefs(v@),
{
    let mut r: Vec<ProcessBrief> = Vec::new();
    let mut i: usize = 0;
    while i < v.len()
        invariant
            i <= v@.len(),
            briefs(r@) == briefs(v@).take(i as int),
        decreases v@.len() - i,
    {
        push_brief(&mut r, v[i].copy());
        i += 1;
        proof {
            assert(briefs(r@) =~= briefs(v@).take(i as int));
        }
    }
    proof {
        assert(briefs(v@).take(v@.len() as int) =~= briefs(v@));
    }
    r
}

/// The processes at the given positions.
fn pick(all: &Vec<ProcessBrief>, order: &Vec<usize>) -> (r: Vec<ProcessBrief>)
    requires
        forall|i: int| 0 <= i < order@.len() ==> #[trigger] order@[i] < all@.len(),
    ensures
        briefs(r@) == reordered(briefs(all@), positions(order@)),
{
    let mut r: Vec<ProcessBrief> = Vec::new();
    let mut i: usize = 0;
    while i < order.len()
        invariant
            i <= order@.len(),
            forall|i: int| 0 <= i < order@.len() ==> #[trigger] order@[i] < all@.len(),
            briefs(r@) == reordered(briefs(all@), positions(order@)).take(i as int),
        decreases order@.len() - i,
    {
        push_brief(&mut r, all[order[i]].copy());
        i += 1;
        proof {
            assert(briefs(r@) =~= reordered(briefs(all@), positions(order@)).take(i as int));
        }
    }
    proof {
        let whole = reordered(briefs(all@), positions(order@));
        assert(whole.take(order@.len() as int) =~= whole);
    }
    r
}

impl ProcessBrief {
    /// A copy.
    pub fn copy(&self) -> (r: ProcessBrief)
        ensures
            r@ == self@,
    {
        let exe_path = match &self.exe_path {
            Some(p) => Some(p.clone()),
            None => None,
        };
        ProcessBrief {
            pid: self.pid,
            name: self.name.clone(),
            cpu_usage: self.cpu_usage,
            mem_used_mb: self.mem_used_mb,
            exe_path,
            handle_count: self.handle_count,
            gdi_objects: self.gdi_objects,
            user_objects: self.user_objects,
            io_read_bps: self.io_read_bps,
            io_write_bps: self.io_write_bps,
        }
    }

    /// The top processes by CPU and by memory: the first `cpu_take` by CPU, then the first
    /// `mem_take` by memory, each id once, until `max` are found.
    pub fn merge_top(all: Vec<ProcessBrief>, cpu_take: usize, mem_take: usize, max: usize) -> (r: Vec<ProcessBrief>)
        ensures
            briefs(r@) == top_merged(briefs(all@), cpu_take as int, mem_take as int, max as int),
    {
        let cpu_order = ascending_order(&cpu_keys(&all));
        let ranked = pick(&all, &cpu_order);
        let mem_order = ascending_order(&mem_keys(&ranked));
        let heavy = pick(&ranked, &mem_order);
        let cpu_n: usize = if cpu_take < ranked.len() {
            cpu_take
        } else {
            ranked.len()
        };
        let mem_n: usize = if mem_take < heavy.len() {
            mem_take
        } else {
            heavy.len()
        };
        let ghost wanted = top_candidates(briefs(all@), cpu_take as int, mem_take as int);
        let mut candidates: Vec<ProcessBrief> = Vec::new();
        let mut i: usize = 0;
        while i < cpu_n
            invariant
                i <= cpu_n <= ranked@.len(),
                briefs(candidates@) == briefs(ranked@).take(i as int),
            decreases cpu_n - i,
        {
            push_brief(&mut candidates, ranked[i].copy());
            i += 1;
            proof {
                assert(briefs(candidates@) =~= briefs(ranked@).take(i as int));
            }
        }
        let ghost leaders = briefs(candidates@);
        let mut j: usize = 0;
        proof {
            assert(leaders =~= leaders + briefs(heavy@).take(0));
        }
        while j < mem_n
            invariant
                j <= mem_n <= heavy@.len(),
                briefs(candidates@) == leaders + briefs(heavy@).take(j as int),
            decreases mem_n - j,
        {
            push_brief(&mut candidates, heavy[j].copy());
            j += 1;
            proof {
                assert(briefs(candidates@) =~= leaders + briefs(heavy@).take(j as int));
            }
        }
        proof {
            assert(briefs(ranked@) == by_cpu(briefs(all@)));
            assert(briefs(heavy@) == by_mem(briefs(ranked@)));
            assert(briefs(candidates@) =~= wanted);
        }
        let mut r: Vec<ProcessBrief> = Vec::new();
        let mut k: usize = 0;
        proof {
            assert(briefs(r@) =~= seq![]);
            assert(wanted.skip(0) =~= wanted);
        }
        while k < candidates.len() && r.len() < max
            invariant
                k <= candidates@.len(),
                briefs(candidates@) == wanted,
                wanted == top_candidates(briefs(all@), cpu_take as int, mem_take as int),
                merged(briefs(r@), wanted.skip(k as int), max as int) == merged(seq![], wanted, max as int),
            decreases candidates@.len() - k,
        {
            let ghost rest = wanted.skip(k as int);
            let p = candidates[k].copy();
            proof {
                assert(rest[0] == p@);
                assert(rest.skip(1) =~= wanted.skip(k + 1));
            }
            if !contains_pid(&r, p.pid) {
                push_brief(&mut r, p);
            }
            k += 1;
        }
        r
    }
}

fn contains_pid(v: &Vec<ProcessBrief>, pid: u32) -> (found: bool)
    ensures
        found == has_pid(briefs(v@), pid),
{
    let mut i: usize = 0;
    while i < v.len()
        invariant
            i <= v@.len(),
            forall|j: int| 0 <= j < i ==> v@[j].pid != pid,
        decreases v@.len() - i,
    {
        if v[i].pid == pid {
            proof {
                assert(briefs(v@)[i as int].pid == pid);
            }
            return true;
        }
        i += 1;
    }
    proof {
        assert forall|j: int| 0 <= j < briefs(v@).len() implies (#[trigger] briefs(v@)[j]).pid != pid by {
            assert(v@[j].pid != pid);
        }
    }
    false
}

fn cpu_keys(all: &Vec<ProcessBrief>) -> (keys: Vec<i128>)
    ensures
        keys@ == falling_cpu_keys(briefs(all@)),
{
    let mut keys: Vec<i128> = Vec::new();
    let mut i: usize = 0;
    while i < all.len()
        invariant
            i <= all@.len(),
            keys@ == falling_cpu_keys(briefs(all@)).take(i as int),
        decreases all@.len() - i,
    {
        keys.push(-all[i].cpu_usage.key());
        i += 1;
        proof {
            assert(keys@ =~= falling_cpu_keys(briefs(all@)).take(i as int));
        }
    }
    proof {
        assert(keys@ =~= falling_cpu_keys(briefs(all@)));
    }
    keys
}

fn mem_keys(all: &Vec<ProcessBrief>) -> (keys: Vec<i128>)
    ensures
        keys@ == falling_mem_keys(briefs(all@)),
{
    let mut keys: Vec<i128> = Vec::new();
    let mut i: usize = 0;
    while i < all.len()
        invariant
            i <= all@.len(),
            keys@ == falling_mem_keys(briefs(all@)).take(i as int),
        decreases all@.len() - i,
    {
        keys.push(-(all[i].mem_used_mb as i128));
        i += 1;
        proof {
            assert(keys@ =~= falling_mem_keys(briefs(all@)).take(i as int));
        }
    }
    proof {
        assert(keys@ =~= falling_mem_keys(briefs(all@)));
    }
    keys
}

/// No id occurs twice.
pub open spec fn distinct_pids(s: Seq<ProcessModel>) -> bool {
    forall|i: int, j: int| 0 <= i < j < s.len() ==> s[i].pid != s[j].pid
}

proof fn lemma_merged(found: Seq<ProcessModel>, rest: Seq<ProcessModel>, max: int)
    requires
        distinct_pids(found),
        found.len() <= max,
    ensures
        distinct_pids(merged(found, rest, max)),
        merged(found, rest, max).len() <= max,
        found.is_prefix_of(merged(found, rest, max)),
        forall|i: int|
            0 <= i < merged(found, rest, max).len() ==> found.contains(
                #[trigger] merged(found, rest, max)[i],
            ) || rest.contains(merged(found, rest, max)[i]),
        found.len() == 0 && rest.len() > 0 && max > 0 ==> merged(found, rest, max).len() > 0 && merged(
            found,
            rest,
            max,
        )[0] == rest[0],
    decreases rest.len(),
{
    let all = merged(found, rest, max);
    if rest.len() > 0 && found.len() < max {
        let more = if has_pid(found, rest[0].pid) {
            found
        } else {
            found.push(rest[0])
        };
        if !has_pid(found, rest[0].pid) {
            assert forall|i: int, j: int| 0 <= i < j < more.len() implies more[i].pid != more[j].pid by {
                assert(more[i] == found[i]);
            }
            assert(found.is_prefix_of(more));
        }
        assert forall|i: int| 0 <= i < more.len() implies found.contains(#[trigger] more[i]) || rest.contains(more[i]) by {
            if i == found.len() {
                assert(rest[0] == more[i]);
            } else {
                assert(found[i] == more[i]);
            }
        }
        lemma_merged(more, rest.skip(1), max);
        assert forall|i: int| 0 <= i < all.len() implies found.contains(#[trigger] all[i]) || rest.contains(all[i]) by {
            if more.contains(all[i]) {
                let k = choose|k: int| 0 <= k < more.len() && more[k] == all[i];
                assert(found.contains(more[k]) || rest.contains(more[k]));
            } else {
                let k = choose|k: int| 0 <= k < rest.skip(1).len() && rest.skip(1)[k] == all[i];
                assert(rest[k + 1] == all[i]);
            }
        }
        if found.len() == 0 {
            assert(!has_pid(found, rest[0].pid));
            assert(more[0] == rest[0]);
            assert(all[0] == more[0]);
        }
    } else {
        assert forall|i: int| 0 <= i < all.len() implies found.contains(#[trigger] all[i]) by {
            assert(found[i] == all[i]);
        }
    }
}

/// A merge of top processes names no process twice, holds at most `max` of them, invents none,
/// and begins with one that no other exceeds in CPU use.
pub proof fn lemma_top_merged(all: Seq<ProcessModel>, cpu_take: int, mem_take: int, max: int)
    requires
        max >= 0,
        cpu_take >= 0,
        mem_take >= 0,
    ensures
        distinct_pids(top_merged(all, cpu_take, mem_take, max)),
        top_merged(all, cpu_take, mem_take, max).len() <= max,
        forall|i: int|
            0 <= i < top_merged(all, cpu_take, mem_take, max).len() ==> all.contains(
                #[trigger] top_merged(all, cpu_take, mem_take, max)[i],
            ),
        cpu_take > 0 && max > 0 && all.len() > 0 ==> top_merged(all, cpu_take, mem_take, max).len() > 0 && forall|i: int|
            0 <= i < all.len() ==> sort_key((#[trigger] all[i]).cpu_usage) <= sort_key(
                top_merged(all, cpu_take, mem_take, max)[0].cpu_usage,
            ),
{
    let keys = falling_cpu_keys(all);
    let ranked = by_cpu(all);
    let heavy = by_mem(ranked);
    let candidates = top_candidates(all, cpu_take, mem_take);
    let r = top_merged(all, cpu_take, mem_take, max);
    lemma_ascending(keys);
    lemma_ascending(falling_mem_keys(ranked));
    lemma_merged(seq![], candidates, max);
    assert forall|i: int| 0 <= i < r.len() implies all.contains(#[trigger] r[i]) by {
        assert(candidates.contains(r[i]));
        let k = choose|k: int| 0 <= k < candidates.len() && candidates[k] == r[i];
        let split = first_of(ranked, cpu_take).len();
        if k < split {
            assert(ranked[k] == all[ascending(keys)[k]]);
        } else {
            let at = ascending(falling_mem_keys(ranked))[k - split];
            assert(heavy[k - split] == ranked[at]);
            assert(ranked[at] == all[ascending(keys)[at]]);
        }
    }
    if cpu_take > 0 && max > 0 && all.len() > 0 {
        let order = ascending(keys);
        assert(candidates[0] == all[order[0]]);
        assert forall|i: int| 0 <= i < all.len() implies sort_key((#[trigger] all[i]).cpu_usage) <= sort_key(r[0].cpu_usage) by {
            let a = lemma_position(order, all.len() as int, i);
            if a > 0 {
                assert(keys[order[0]] <= keys[order[a]]);
            }
        }
    }
}

} // verus!
