//! Which processes are named as culprits.

use crate::detector::{tick, Clock, DetectorModel, Figures};
use crate::detector_laws::well_formed;
use crate::level::{above, sort_key};
use crate::order::{ascending, lemma_ascending, lemma_position};
use crate::types::{
    by_cpu, by_mem, distinct_pids, falling_cpu_keys, falling_mem_keys, first_of, has_pid, lemma_top_merged, merged,
    top_candidates, top_merged, ProcessModel, SampleModel,
};
use vstd::prelude::*;

verus! {

/// A process uses no more CPU than another; what has no rank comes last.
pub open spec fn no_busier(p: ProcessModel, q: ProcessModel) -> bool {
    !above(p.cpu_usage, q.cpu_usage) && (q.cpu_usage is Unordered ==> p.cpu_usage is Unordered)
}

proof fn lemma_busier(p: ProcessModel, q: ProcessModel)
    ensures
        no_busier(p, q) <==> sort_key(p.cpu_usage) <= sort_key(q.cpu_usage),
{
}

/// Processes that no process outside a list exceeds in memory use: `n` of them, each once, all listed.
pub open spec fn heaviest(best: Seq<ProcessModel>, n: int, listed: Seq<ProcessModel>, p: ProcessModel) -> bool {
    &&& best.len() == n
    &&& distinct_pids(best)
    &&& forall|i: int| 0 <= i < n ==> has_pid(listed, (#[trigger] best[i]).pid) && best[i].mem_used_mb >= p.mem_used_mb
}

proof fn lemma_front_taken(found: Seq<ProcessModel>, rest: Seq<ProcessModel>, max: int, n: int)
    requires
        0 <= n <= rest.len(),
        found.len() + n <= max,
        distinct_pids(found + rest.take(n)),
    ensures
        (found + rest.take(n)).is_prefix_of(merged(found, rest, max)),
    decreases n,
{
    let whole = found + rest.take(n);
    if n == 0 {
        assert(whole =~= found);
        lemma_found_kept(found, rest, max);
    } else {
        assert(whole[found.len() as int] == rest[0]);
        assert(!has_pid(found, rest[0].pid)) by {
            if has_pid(found, rest[0].pid) {
                let i = choose|i: int| 0 <= i < found.len() && (#[trigger] found[i]).pid == rest[0].pid;
                assert(whole[i] == found[i]);
            }
        }
        let more = found.push(rest[0]);
        assert(more + rest.skip(1).take(n - 1) =~= whole);
        lemma_front_taken(more, rest.skip(1), max, n - 1);
    }
}

proof fn lemma_found_kept(found: Seq<ProcessModel>, rest: Seq<ProcessModel>, max: int)
    ensures
        found.is_prefix_of(merged(found, rest, max)),
    decreases rest.len(),
{
    let all = merged(found, rest, max);
    if rest.len() == 0 || found.len() >= max {
        assert(found =~= all.subrange(0, found.len() as int));
    } else {
        let more = if has_pid(found, rest[0].pid) {
            found
        } else {
            found.push(rest[0])
        };
        lemma_found_kept(more, rest.skip(1), max);
        assert(more =~= all.subrange(0, more.len() as int));
        assert(found =~= all.subrange(0, found.len() as int)) by {
            assert forall|i: int| 0 <= i < found.len() implies found[i] == #[trigger] all[i] by {
                assert(more[i] == all.subrange(0, more.len() as int)[i]);
            }
        }
    }
}

proof fn lemma_all_listed(found: Seq<ProcessModel>, rest: Seq<ProcessModel>, max: int, j: int)
    requires
        0 <= j < rest.len(),
        merged(found, rest, max).len() < max || found.len() + rest.len() <= max,
    ensures
        has_pid(merged(found, rest, max), rest[j].pid),
    decreases rest.len(),
{
    let all = merged(found, rest, max);
    lemma_found_kept(found, rest, max);
    assert(found.len() <= all.len());
    let more = if has_pid(found, rest[0].pid) {
        found
    } else {
        found.push(rest[0])
    };
    assert(all == merged(more, rest.skip(1), max));
    if j == 0 {
        lemma_found_kept(more, rest.skip(1), max);
        assert(has_pid(more, rest[0].pid)) by {
            if !has_pid(found, rest[0].pid) {
                assert(more[found.len() as int].pid == rest[0].pid);
            }
        }
        let i = choose|i: int| 0 <= i < more.len() && (#[trigger] more[i]).pid == rest[0].pid;
        assert(all[i] == more[i]) by {
            assert(more =~= all.subrange(0, more.len() as int));
            assert(all.subrange(0, more.len() as int)[i] == all[i]);
        }
    } else {
        assert(rest.skip(1)[j - 1] == rest[j]);
        lemma_all_listed(more, rest.skip(1), max, j - 1);
    }
}

/// The list of top processes begins with those that use the most CPU, the busiest first, as many as are
/// asked for. Where there is room, a process that is left out is also exceeded in memory use by as many
/// listed ones as are asked for.
pub proof fn lemma_top_processes_lead(all: Seq<ProcessModel>, cpu_take: int, mem_take: int, max: int)
    requires
        distinct_pids(all),
        0 <= cpu_take <= max,
        0 <= mem_take,
    ensures
        ({
            let r = top_merged(all, cpu_take, mem_take, max);
            let n = if cpu_take <= all.len() {
                cpu_take
            } else {
                all.len() as int
            };
            &&& n <= r.len() <= max
            &&& distinct_pids(r)
            &&& forall|i: int| 0 <= i < r.len() ==> all.contains(#[trigger] r[i])
            &&& forall|i: int, j: int| 0 <= i < j < n ==> no_busier(#[trigger] r[j], #[trigger] r[i])
            &&& forall|i: int, p: ProcessModel|
                0 <= i < n && all.contains(p) && !r.take(n).contains(p) ==> #[trigger] no_busier(p, r[i])
            &&& forall|p: ProcessModel|
                all.contains(p) && (r.len() < max || cpu_take + mem_take <= max) && !has_pid(r, p.pid) ==> exists|best: Seq<ProcessModel>|
                    #[trigger] heaviest(best, mem_take, r, p)
        }),
{
    let r = top_merged(all, cpu_take, mem_take, max);
    let n = if cpu_take <= all.len() {
        cpu_take
    } else {
        all.len() as int
    };
    let keys = falling_cpu_keys(all);
    let ranked = by_cpu(all);
    let order = ascending(keys);
    let heavy = by_mem(ranked);
    let mem_order = ascending(falling_mem_keys(ranked));
    let c = top_candidates(all, cpu_take, mem_take);
    lemma_ascending(keys);
    lemma_ascending(falling_mem_keys(ranked));
    lemma_top_merged(all, cpu_take, mem_take, max);
    let none = Seq::<ProcessModel>::empty();
    assert(c.take(n) =~= ranked.take(n));
    assert(distinct_pids(ranked)) by {
        assert forall|i: int, j: int| 0 <= i < j < ranked.len() implies ranked[i].pid != ranked[j].pid by {
            let x = order[i];
            let y = order[j];
            assert(all[x].pid != all[y].pid) by {
                if x < y {
                } else {
                    assert(all[y].pid != all[x].pid);
                }
            }
        }
    }
    assert(none + c.take(n) =~= ranked.take(n));
    lemma_front_taken(none, c, max, n);
    assert forall|i: int| 0 <= i < n implies #[trigger] r[i] == ranked[i] by {
        assert((none + c.take(n))[i] == r.subrange(0, n)[i]);
    }
    assert forall|i: int, j: int| 0 <= i < j < n implies no_busier(#[trigger] r[j], #[trigger] r[i]) by {
        let x = order[i];
        let y = order[j];
        assert(keys[x] <= keys[y]);
        lemma_busier(r[j], r[i]);
    }
    assert forall|i: int, p: ProcessModel| 0 <= i < n && all.contains(p) && !r.take(n).contains(p) implies #[trigger] no_busier(
        p,
        r[i],
    ) by {
        let x = choose|x: int| 0 <= x < all.len() && all[x] == p;
        let at = lemma_position(order, all.len() as int, x);
        assert(ranked[at] == p);
        if at < n {
            assert(r.take(n)[at] == p);
        }
        assert(keys[order[i]] <= keys[order[at]]);
        lemma_busier(p, r[i]);
    }
    assert forall|p: ProcessModel| all.contains(p) && (r.len() < max || cpu_take + mem_take <= max) && !has_pid(
        r,
        p.pid,
    ) implies exists|
        best: Seq<ProcessModel>,
    | #[trigger] heaviest(best, mem_take, r, p) by {
        let x = choose|x: int| 0 <= x < all.len() && all[x] == p;
        let at = lemma_position(order, all.len() as int, x);
        assert(ranked[at] == p);
        let pos = lemma_position(mem_order, ranked.len() as int, at);
        assert(heavy[pos] == p);
        let split = first_of(ranked, cpu_take).len() as int;
        if pos < mem_take {
            assert(first_of(heavy, mem_take)[pos] == p);
            assert(c[split + pos] == p);
            lemma_all_listed(none, c, max, split + pos);
            assert(false);
        }
        let best = heavy.take(mem_take);
        assert forall|i: int, j: int| 0 <= i < j < best.len() implies best[i].pid != best[j].pid by {
            let a = mem_order[i];
            let b = mem_order[j];
            assert(ranked[a].pid != ranked[b].pid) by {
                if a < b {
                } else {
                    assert(ranked[b].pid != ranked[a].pid);
                }
            }
        }
        assert forall|i: int| 0 <= i < mem_take implies has_pid(r, (#[trigger] best[i]).pid) && best[i].mem_used_mb
            >= p.mem_used_mb by {
            assert(first_of(heavy, mem_take)[i] == best[i]);
            assert(c[split + i] == best[i]);
            lemma_all_listed(none, c, max, split + i);
            assert(falling_mem_keys(ranked)[mem_order[i]] <= falling_mem_keys(ranked)[mem_order[pos]]);
        }
        assert(heaviest(best, mem_take, r, p));
    }
}

/// The culprits of an event are the three busiest processes of its stutter, the busiest first, and
/// besides the three with the most memory; none is named twice, and there are at most six.
pub proof fn lemma_culprits_of_events(m: DetectorModel, sample: SampleModel, f: Figures, now: Clock, frozen: bool)
    requires
        well_formed(m),
        tick(m, sample, f, now, frozen).1 is Some,
    ensures
        ({
            let r = tick(m, sample, f, now, frozen).1->0.culprits;
            let held = m.culprits;
            let n = if held.len() >= 3 {
                3int
            } else {
                held.len() as int
            };
            &&& n <= r.len() <= 6
            &&& distinct_pids(r)
            &&& forall|i: int| 0 <= i < r.len() ==> held.contains(#[trigger] r[i])
            &&& forall|i: int, j: int| 0 <= i < j < n ==> no_busier(#[trigger] r[j], #[trigger] r[i])
            &&& forall|i: int, p: ProcessModel|
                0 <= i < n && held.contains(p) && !r.take(n).contains(p) ==> #[trigger] no_busier(p, r[i])
            &&& forall|p: ProcessModel|
                held.contains(p) && !has_pid(r, p.pid) ==> exists|best: Seq<ProcessModel>|
                    #[trigger] heaviest(best, 3, r, p)
        }),
{
    lemma_top_processes_lead(m.culprits, 3, 3, 6);
}

} // verus!
