//! Sampled call stacks: from raw addresses to hot spots in modules.

use crate::event_log::{decode_utf16, utf16_text, zero_unit};
use crate::grouping::{
    first_positions, group_ids, group_ok, groups_of, groups_ok, lemma_first_positions, lemma_groups_upto, lemma_same_groups,
    members,
};
use crate::order::{ascending, ascending_order, lemma_ascending, positions, reordered};
use crate::types::{briefs, first_of, ProcessBrief, ProcessModel};
use vstd::prelude::*;

verus! {

/// How many hot spots are kept.
pub const MAX_HOTSPOTS: usize = 20;

/// The event of a sampled profile.
pub const SAMPLED_PROFILE_ID: u16 = 46;

/// One sampled address.
#[derive(Clone, Copy, Debug, PartialEq, Eq)]
pub struct RawFrame {
    pub pid: u32,
    pub address: u64,
}

/// A module loaded into a process.
#[derive(Debug)]
pub struct ModuleSpan {
    pub path: String,
    pub base: u64,
    pub size: u64,
}

/// The modules of a process.
#[derive(Debug)]
pub struct ProcessModules {
    pub pid: u32,
    pub modules: Vec<ModuleSpan>,
}

/// A module that was loaded when a stutter was recorded.
#[derive(Debug)]
pub struct ProcessModule {
    pub pid: u32,
    pub process_name: String,
    pub path: String,
    pub module_size: u64,
}

/// A hot spot: a place in a module, and how often it was sampled.
#[derive(Debug)]
pub struct StackSample {
    pub pid: u32,
    pub process_name: String,
    pub module: String,
    /// The offset in the module.
    pub rva: u64,
    pub sample_count: u64,
}

/// What a [`StackSample`] holds.
pub struct StackModel {
    pub pid: u32,
    pub process_name: Seq<char>,
    pub module: Seq<char>,
    pub rva: u64,
    pub sample_count: u64,
}

impl View for StackSample {
    type V = StackModel;

    open spec fn view(&self) -> StackModel {
        StackModel {
            pid: self.pid,
            process_name: self.process_name@,
            module: self.module@,
            rva: self.rva,
            sample_count: self.sample_count,
        }
    }
}

/// What hot spots hold.
pub open spec fn stack_models(v: Seq<StackSample>) -> Seq<StackModel> {
    Seq::new(v.len(), |i: int| v[i]@)
}

/// The number that little-endian bytes make.
pub open spec fn little_endian(b: Seq<u8>, at: int, n: int) -> int
    decreases n,
{
    if n <= 0 {
        0
    } else {
        b[at] + 256 * little_endian(b, at + 1, n - 1)
    }
}

fn read_word(b: &[u8], at: usize, n: usize) -> (v: u64)
    requires
        n <= 8,
        at + n <= b@.len(),
    ensures
        v == little_endian(b@, at as int, n as int),
        n == 0 ==> v == 0,
        n == 1 ==> v < 0x100,
        n == 2 ==> v < 0x1_0000,
        n == 3 ==> v < 0x100_0000,
        n == 4 ==> v < 0x1_0000_0000,
        n == 5 ==> v < 0x100_0000_0000,
        n == 6 ==> v < 0x1_0000_0000_0000,
        n == 7 ==> v < 0x100_0000_0000_0000,
    decreases n,
{
    let len: usize = b.len();
    if n == 0 || at >= len {
        0
    } else {
        let rest = read_word(b, at + 1, n - 1);
        b[at] as u64 + 256 * rest
    }
}

/// The bytes of the stamp of a stack item.
pub const STAMP_SIZE: usize = 8;

/// The addresses of a stack item: `n` words of `width` bytes from its second word on, zeros left out.
pub open spec fn stack_addresses(data: Seq<u8>, width: int, n: int) -> Seq<u64>
    decreases n,
{
    if n <= 0 {
        seq![]
    } else {
        let before = stack_addresses(data, width, n - 1);
        let address = little_endian(data, n * width, width) as u64;
        if address == 0 {
            before
        } else {
            before.push(address)
        }
    }
}

/// How many addresses a stack item holds: as many as fit beside its stamp.
pub open spec fn address_count(len: int, width: int) -> int {
    if len < STAMP_SIZE {
        0
    } else {
        (len - STAMP_SIZE) / width
    }
}

/// The frames of addresses in a process.
pub open spec fn frames_at(pid: u32, addresses: Seq<u64>) -> Seq<RawFrame> {
    Seq::new(addresses.len(), |i: int| RawFrame { pid, address: addresses[i] })
}

/// The frames of a stack item of a sampled profile; `wide` says whether addresses have eight bytes
/// or four.
pub fn decode_stack(pid: u32, data: &[u8], wide: bool) -> (frames: Vec<RawFrame>)
    ensures
        ({
            let width = if wide { 8int } else { 4 };
            frames@ == frames_at(pid, stack_addresses(data@, width, address_count(data@.len() as int, width)))
        }),
{
    let width: usize = if wide {
        8
    } else {
        4
    };
    let len: usize = data.len();
    let count: usize = if len < STAMP_SIZE {
        0
    } else {
        (len - STAMP_SIZE) / width
    };
    let ghost w = width as int;
    let mut frames: Vec<RawFrame> = Vec::new();
    let mut i: usize = 0;
    proof {
        assert(frames@ =~= frames_at(pid, stack_addresses(data@, w, 0)));
    }
    while i < count
        invariant
            i <= count,
            width == 8 || width == 4,
            w == width,
            len == data@.len(),
            count > 0 ==> count * width + STAMP_SIZE <= data@.len(),
            frames@ == frames_at(pid, stack_addresses(data@, w, i as int)),
        decreases count - i,
    {
        i += 1;
        proof {
            assert(0 <= i * width && i * width + width <= data@.len()) by (nonlinear_arith)
                requires
                    0 < i <= count,
                    count * width + STAMP_SIZE <= data@.len(),
                    width == 8 || width == 4,
            ;
        }
        let address = read_word(data, i * width, width);
        if address != 0 {
            frames.push(RawFrame { pid, address });
        }
        proof {
            assert(frames@ =~= frames_at(pid, stack_addresses(data@, w, i as int)));
        }
    }
    frames
}

/// Whether an address lies in a module, which ends in front of base and size together.
pub open spec fn lies_in(m: ModuleSpan, address: u64) -> bool {
    m.base <= address < m.base + m.size
}

/// The index of the first module that an address lies in, from `i` on.
pub open spec fn module_at(mods: Seq<ModuleSpan>, address: u64, i: int) -> int
    decreases mods.len() - i,
{
    if i >= mods.len() || lies_in(mods[i], address) {
        i
    } else {
        module_at(mods, address, i + 1)
    }
}

fn find_module(mods: &Vec<ModuleSpan>, address: u64) -> (i: usize)
    ensures
        i <= mods@.len(),
        i == module_at(mods@, address, 0),
        i < mods@.len() ==> lies_in(mods@[i as int], address),
{
    let mut i: usize = 0;
    while i < mods.len()
        invariant
            i <= mods@.len(),
            module_at(mods@, address, i as int) == module_at(mods@, address, 0),
        decreases mods@.len() - i,
    {
        if address >= mods[i].base && address - mods[i].base < mods[i].size {
            return i;
        }
        i += 1;
    }
    i
}

/// The module that an address lies in, and the offset in it.
pub fn resolve_address(mods: &Vec<ModuleSpan>, address: u64) -> (r: Option<(String, u64)>)
    ensures
        ({
            let i = module_at(mods@, address, 0);
            match r {
                Some((path, rva)) => i < mods@.len() && path@ == mods@[i].path@ && rva == address - mods@[i].base,
                None => i >= mods@.len(),
            }
        }),
{
    let i = find_module(mods, address);
    if i < mods.len() {
        Some((mods[i].path.clone(), address - mods[i].base))
    } else {
        None
    }
}

/// An offset in a module stands for the address: base and offset add up to it.
pub proof fn lemma_offset_is_in_module(mods: Seq<ModuleSpan>, address: u64, i: int)
    requires
        0 <= i <= mods.len(),
        module_at(mods, address, i) < mods.len(),
    ensures
        ({
            let m = mods[module_at(mods, address, i)];
            m.base <= address && address - m.base < m.size
        }),
    decreases mods.len() - i,
{
    if !lies_in(mods[i], address) {
        lemma_offset_is_in_module(mods, address, i + 1);
    }
}

/// A module as the system lists it: its path in UTF-16, filled up with zeros, and where it lies.
#[derive(Debug)]
pub struct ModuleEntry {
    pub path: Vec<u16>,
    pub base: u64,
    pub size: u32,
}

/// The path of a listed module.
pub open spec fn entry_path(e: ModuleEntry) -> Seq<char> {
    utf16_text(e.path@.take(zero_unit(e.path@, 0)))
}

/// The modules of a process by the system's list.
pub fn snapshot_process_modules(pid: u32, process_name: &str, entries: &Vec<ModuleEntry>) -> (r: Vec<ProcessModule>)
    ensures
        r@.len() == entries@.len(),
        forall|i: int|
            0 <= i < r@.len() ==> {
                &&& (#[trigger] r@[i]).pid == pid
                &&& r@[i].process_name@ == process_name@
                &&& r@[i].path@ == entry_path(entries@[i])
                &&& r@[i].module_size == entries@[i].size
            },
{
    let mut r: Vec<ProcessModule> = Vec::new();
    let mut i: usize = 0;
    while i < entries.len()
        invariant
            i <= entries@.len(),
            r@.len() == i,
            forall|k: int|
                0 <= k < r@.len() ==> {
                    &&& (#[trigger] r@[k]).pid == pid
                    &&& r@[k].process_name@ == process_name@
                    &&& r@[k].path@ == entry_path(entries@[k])
                    &&& r@[k].module_size == entries@[k].size
                },
        decreases entries@.len() - i,
    {
        r.push(
            ProcessModule {
                pid,
                process_name: String::from_str(process_name),
                path: decode_utf16(entries[i].path.as_slice()),
                module_size: entries[i].size as u64,
            },
        );
        i += 1;
    }
    r
}

/// Where the modules of a process lie, by the system's list.
pub fn snapshot_module_addrs(pid: u32, entries: &Vec<ModuleEntry>) -> (r: ProcessModules)
    ensures
        r.pid == pid,
        r.modules@.len() == entries@.len(),
        forall|i: int|
            0 <= i < r.modules@.len() ==> {
                &&& (#[trigger] r.modules@[i]).path@ == entry_path(entries@[i])
                &&& r.modules@[i].base == entries@[i].base
                &&& r.modules@[i].size == entries@[i].size
            },
{
    let mut modules: Vec<ModuleSpan> = Vec::new();
    let mut i: usize = 0;
    while i < entries.len()
        invariant
            i <= entries@.len(),
            modules@.len() == i,
            forall|k: int|
                0 <= k < modules@.len() ==> {
                    &&& (#[trigger] modules@[k]).path@ == entry_path(entries@[k])
                    &&& modules@[k].base == entries@[k].base
                    &&& modules@[k].size == entries@[k].size
                },
        decreases entries@.len() - i,
    {
        modules.push(
            ModuleSpan {
                path: decode_utf16(entries[i].path.as_slice()),
                base: entries[i].base,
                size: entries[i].size as u64,
            },
        );
        i += 1;
    }
    ProcessModules { pid, modules }
}

/// A sampled place in a module.
pub struct Hit {
    pub pid: u32,
    pub process_name: Seq<char>,
    pub module: Seq<char>,
    pub rva: u64,
}

/// The index of the first list of modules of a process, from `i` on.
pub open spec fn modules_at(maps: Seq<ProcessModules>, pid: u32, i: int) -> int
    decreases maps.len() - i,
{
    if i >= maps.len() || maps[i].pid == pid {
        i
    } else {
        modules_at(maps, pid, i + 1)
    }
}

/// The name of the last of the first `n` processes with an id.
pub open spec fn name_of(procs: Seq<ProcessModel>, pid: u32, n: int) -> Option<Seq<char>>
    decreases n,
{
    if n <= 0 {
        None
    } else if procs[n - 1].pid == pid {
        Some(procs[n - 1].name)
    } else {
        name_of(procs, pid, n - 1)
    }
}

/// Where a frame hits, if its process is a culprit and a module of it is known.
pub open spec fn hit_of(maps: Seq<ProcessModules>, procs: Seq<ProcessModel>, f: RawFrame) -> Option<Hit> {
    let i = modules_at(maps, f.pid, 0);
    match name_of(procs, f.pid, procs.len() as int) {
        Some(name) => if i >= maps.len() {
            None
        } else {
            let mods = maps[i].modules@;
            let k = module_at(mods, f.address, 0);
            if k >= mods.len() {
                None
            } else {
                Some(
                    Hit { pid: f.pid, process_name: name, module: mods[k].path@, rva: (f.address - mods[k].base) as u64 },
                )
            }
        },
        None => None,
    }
}

/// Where the first `n` frames hit.
pub open spec fn hits_upto(maps: Seq<ProcessModules>, procs: Seq<ProcessModel>, frames: Seq<RawFrame>, n: int) -> Seq<Hit>
    decreases n,
{
    if n <= 0 {
        seq![]
    } else {
        match hit_of(maps, procs, frames[n - 1]) {
            Some(h) => hits_upto(maps, procs, frames, n - 1).push(h),
            None => hits_upto(maps, procs, frames, n - 1),
        }
    }
}

/// The hot spots of hits, in the order in which they first occur.
pub open spec fn spots_of(hits: Seq<Hit>) -> Seq<StackModel> {
    let groups = groups_of(hits);
    Seq::new(
        groups.len(),
        |i: int|
            {
                let h = hits[groups[i][0]];
                StackModel {
                    pid: h.pid,
                    process_name: h.process_name,
                    module: h.module,
                    rva: h.rva,
                    sample_count: groups[i].len() as u64,
                }
            },
    )
}

/// The keys of a ranking of hot spots: the most sampled first.
pub open spec fn spot_keys(v: Seq<StackModel>) -> Seq<i128> {
    Seq::new(v.len(), |i: int| (-(v[i].sample_count as int)) as i128)
}

/// The hot spots that are kept.
pub open spec fn hot_spots(hits: Seq<Hit>) -> Seq<StackModel> {
    let all = spots_of(hits);
    first_of(reordered(all, ascending(spot_keys(all))), MAX_HOTSPOTS as int)
}

/// A hit as it is collected.
struct RawHit {
    pid: u32,
    process_name: String,
    module: String,
    rva: u64,
}

impl View for RawHit {
    type V = Hit;

    closed spec fn view(&self) -> Hit {
        Hit { pid: self.pid, process_name: self.process_name@, module: self.module@, rva: self.rva }
    }
}

spec fn hit_models(v: Seq<RawHit>) -> Seq<Hit> {
    Seq::new(v.len(), |i: int| v[i]@)
}

fn find_modules(maps: &Vec<ProcessModules>, pid: u32) -> (i: usize)
    ensures
        i <= maps@.len(),
        i == modules_at(maps@, pid, 0),
{
    let mut i: usize = 0;
    while i < maps.len() && maps[i].pid != pid
        invariant
            i <= maps@.len(),
            modules_at(maps@, pid, i as int) == modules_at(maps@, pid, 0),
        decreases maps@.len() - i,
    {
        i += 1;
    }
    i
}

fn find_name(procs: &Vec<ProcessBrief>, pid: u32) -> (s: Option<String>)
    ensures
        match s {
            Some(t) => name_of(briefs(procs@), pid, procs@.len() as int) == Some(t@),
            None => name_of(briefs(procs@), pid, procs@.len() as int) is None,
        },
{
    let ghost ps = briefs(procs@);
    let mut n: usize = procs.len();
    while n > 0
        invariant
            n <= procs@.len(),
            ps == briefs(procs@),
            name_of(ps, pid, n as int) == name_of(ps, pid, procs@.len() as int),
        decreases n,
    {
        proof {
            assert(ps[n - 1] == procs@[n - 1]@);
        }
        if procs[n - 1].pid == pid {
            return Some(procs[n - 1].name.clone());
        }
        n -= 1;
    }
    None
}

fn collect_hits(maps: &Vec<ProcessModules>, procs: &Vec<ProcessBrief>, frames: &Vec<RawFrame>) -> (hits: Vec<RawHit>)
    ensures
        hit_models(hits@) == hits_upto(maps@, briefs(procs@), frames@, frames@.len() as int),
{
    let mut hits: Vec<RawHit> = Vec::new();
    let mut n: usize = 0;
    proof {
        assert(hit_models(hits@) =~= seq![]);
    }
    while n < frames.len()
        invariant
            n <= frames@.len(),
            hit_models(hits@) == hits_upto(maps@, briefs(procs@), frames@, n as int),
        decreases frames@.len() - n,
    {
        let f = frames[n];
        let i = find_modules(maps, f.pid);
        if i < maps.len() {
            if let Some(process_name) = find_name(procs, f.pid) {
                if let Some((module, rva)) = resolve_address(&maps[i].modules, f.address) {
                    let ghost before = hits@;
                    let h = RawHit { pid: f.pid, process_name, module, rva };
                    let ghost m = h@;
                    hits.push(h);
                    proof {
                        assert(hit_models(hits@) =~= hit_models(before).push(m));
                    }
                }
            }
        }
        n += 1;
    }
    hits
}

fn same_place(a: &RawHit, b: &RawHit) -> (r: bool)
    ensures
        r == (a@ == b@),
{
    a.pid == b.pid && a.rva == b.rva && a.module == b.module && a.process_name == b.process_name
}

fn group_hits(hits: &Vec<RawHit>) -> (groups: Vec<Vec<usize>>)
    ensures
        members(groups@) == groups_of(hit_models(hits@)),
        groups_ok(members(groups@), hit_models(hits@), hits@.len() as int),
{
    let ghost ks = hit_models(hits@);
    let mut ids: Vec<usize> = Vec::new();
    let mut n: usize = 0;
    while n < hits.len()
        invariant
            n <= hits@.len(),
            ks == hit_models(hits@),
            ids@.len() == n,
            first_positions(ids@, ks.take(n as int)),
        decreases hits@.len() - n,
    {
        let mut j: usize = 0;
        while j < n && !same_place(&hits[j], &hits[n])
            invariant
                j <= n < hits@.len(),
                ks == hit_models(hits@),
                forall|i: int| 0 <= i < j ==> #[trigger] ks[i] != ks[n as int],
            decreases n - j,
        {
            proof {
                assert(ks[j as int] == hits@[j as int]@);
                assert(ks[n as int] == hits@[n as int]@);
            }
            j += 1;
        }
        let ghost before = ids@;
        ids.push(j);
        proof {
            let part = ks.take(n + 1);
            let old_part = ks.take(n as int);
            assert(ks[j as int] == ks[n as int]);
            assert forall|i: int| 0 <= i < ids@.len() implies #[trigger] ids@[i] <= i && part[ids@[i] as int] == part[i] by {
                if i < n {
                    assert(ids@[i] == before[i]);
                    assert(old_part[before[i] as int] == old_part[i]);
                }
            }
            assert forall|i: int, k: int| 0 <= k < ids@[i] && 0 <= i < ids@.len() implies #[trigger] part[k]
                != #[trigger] part[i] by {
                if i < n {
                    assert(ids@[i] == before[i]);
                    assert(old_part[k] != old_part[i]);
                }
            }
        }
        n += 1;
    }
    proof {
        assert(ks.take(ks.len() as int) =~= ks);
        lemma_first_positions(ids@, ks);
        lemma_same_groups(ks, ids@, ks.len() as int);
        lemma_groups_upto(ks, ks.len() as int);
    }
    group_ids(&ids)
}

fn push_spot(v: &mut Vec<StackSample>, a: StackSample)
    ensures
        stack_models(final(v)@) == stack_models(old(v)@).push(a@),
        final(v)@.len() == old(v)@.len() + 1,
{
    v.push(a);
    proof {
        assert(stack_models(v@) =~= stack_models(old(v)@).push(a@));
    }
}

/// The hot spots of sampled frames: each place in a module of a culprit with the number of its
/// samples, the most sampled first.
pub fn aggregate_stack_samples(frames: &Vec<RawFrame>, culprits: &Vec<ProcessBrief>, maps: &Vec<ProcessModules>) -> (r:
    Vec<StackSample>)
    ensures
        stack_models(r@) == hot_spots(hits_upto(maps@, briefs(culprits@), frames@, frames@.len() as int)),
{
    let hits = collect_hits(maps, culprits, frames);
    let ghost hs = hit_models(hits@);
    let groups = group_hits(&hits);
    let ghost all = spots_of(hs);
    let mut spots: Vec<StackSample> = Vec::new();
    let mut keys: Vec<i128> = Vec::new();
    let mut k: usize = 0;
    proof {
        assert(stack_models(spots@) =~= all.take(0));
        assert(keys@ =~= spot_keys(all).take(0));
    }
    while k < groups.len()
        invariant
            k <= groups@.len(),
            hs == hit_models(hits@),
            all == spots_of(hs),
            members(groups@) == groups_of(hs),
            groups_ok(members(groups@), hs, hs.len() as int),
            stack_models(spots@) == all.take(k as int),
            keys@ == spot_keys(all).take(k as int),
        decreases groups@.len() - k,
    {
        proof {
            let g = members(groups@)[k as int];
            assert(g == positions(groups@[k as int]@));
            assert(group_ok(g, hs, hs.len() as int));
            assert(g[0] == groups@[k as int]@[0]);
            assert(hs[g[0]] == hits@[g[0]]@);
        }
        let h = &hits[groups[k][0]];
        let count: u64 = groups[k].len() as u64;
        keys.push(-(count as i128));
        push_spot(
            &mut spots,
            StackSample {
                pid: h.pid,
                process_name: h.process_name.clone(),
                module: h.module.clone(),
                rva: h.rva,
                sample_count: count,
            },
        );
        k += 1;
        proof {
            assert(stack_models(spots@) =~= all.take(k as int));
            assert(keys@ =~= spot_keys(all).take(k as int));
        }
    }
    proof {
        assert(all.take(groups@.len() as int) =~= all);
        assert(keys@ =~= spot_keys(all));
    }
    let order = ascending_order(&keys);
    let n: usize = if MAX_HOTSPOTS < order.len() {
        MAX_HOTSPOTS
    } else {
        order.len()
    };
    let ghost ranked = reordered(all, positions(order@));
    let mut r: Vec<StackSample> = Vec::new();
    let mut j: usize = 0;
    proof {
        assert(stack_models(r@) =~= ranked.take(0));
    }
    while j < n
        invariant
            j <= n <= order@.len(),
            order@.len() == spots@.len(),
            forall|i: int| 0 <= i < order@.len() ==> #[trigger] order@[i] < spots@.len(),
            stack_models(spots@) == all,
            ranked == reordered(all, positions(order@)),
            stack_models(r@) == ranked.take(j as int),
        decreases n - j,
    {
        let s = &spots[order[j]];
        proof {
            assert(stack_models(spots@)[order@[j as int] as int] == s@);
        }
        push_spot(
            &mut r,
            StackSample {
                pid: s.pid,
                process_name: s.process_name.clone(),
                module: s.module.clone(),
                rva: s.rva,
                sample_count: s.sample_count,
            },
        );
        j += 1;
        proof {
            assert(stack_models(r@) =~= ranked.take(j as int));
        }
    }
    proof {
        assert(ranked.take(n as int) =~= first_of(ranked, MAX_HOTSPOTS as int));
    }
    r
}

/// Hot spots never rise: a later one was sampled no more often; no more than the limit are kept.
pub proof fn lemma_hot_spots_fall(hits: Seq<Hit>, i: int, j: int)
    requires
        0 <= i < j < hot_spots(hits).len(),
    ensures
        hot_spots(hits).len() <= MAX_HOTSPOTS,
        hot_spots(hits)[i].sample_count >= hot_spots(hits)[j].sample_count,
{
    let keys = spot_keys(spots_of(hits));
    lemma_ascending(keys);
    let x = ascending(keys)[i];
    let y = ascending(keys)[j];
    assert(keys[x] <= keys[y]);
}

/// The sampler of call stacks. Where tracing is not available it stays silent.
#[derive(Clone, Copy, Debug, PartialEq, Eq)]
pub struct StackSampler {
    enabled: bool,
}

impl StackSampler {
    /// Whether the sampler samples.
    pub closed spec fn is_enabled(self) -> bool {
        self.enabled
    }

    /// A sampler; `available` says whether a tracing session could be started.
    pub fn new(available: bool) -> (s: StackSampler)
        ensures
            s.is_enabled() == available,
    {
        StackSampler { enabled: available }
    }

    /// Whether the sampler samples.
    pub fn enabled(&self) -> (r: bool)
        ensures
            r == self.is_enabled(),
    {
        self.enabled
    }

    /// Whether a stutter with these culprits is sampled.
    pub fn samples(&self, culprits: &Vec<ProcessBrief>) -> (r: bool)
        ensures
            r == (self.is_enabled() && culprits@.len() > 0),
    {
        self.enabled && culprits.len() > 0
    }
}

} // verus!
