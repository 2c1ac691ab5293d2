//! What summaries and rankings over many events count.

use crate::analytics::{
    agg_of, aggs_of, blame_keys, causes_upto, class_counts, class_keys, class_ranking, classes_of, countable,
    culprit_ranking, fullest, group_model, leader, longest_upto, mention_durations, mention_groups, mention_names, mentions,
    mentions_upto, peak_cpu, peak_hour_of, peak_mem, row_mentions, rows_of, second_word, space_from, weight_keys,
    weight_ranking, weighted, AggModel, GroupModel, Mention, RowModel, TrendPoint, WeightedModel,
};
use crate::cause::EventModel;
use crate::counting_laws::{amount, lemma_groups_count, times};
use crate::grouping::{group_fits, groups_of, is_member, lemma_groups_upto};
use crate::json::listed;
use crate::labels::class_of;
use crate::level::{above, at_most, Level};
use crate::order::{ascending, lemma_ascending, lemma_position, reordered};
use crate::types::first_of;
use vstd::prelude::*;

verus! {

/// One more row adds a mention of each of its culprits, with the duration and the place of the row.
pub proof fn lemma_mentions_gather(rows: Seq<RowModel>, r: RowModel)
    ensures
        mentions(rows.push(r)) == mentions(rows) + Seq::new(
            r.culprits.len(),
            |i: int| Mention { process: r.culprits[i], duration_ms: r.duration_ms, row: rows.len() as int },
        ),
        mentions(Seq::empty()) == Seq::<Mention>::empty(),
{
    let all = rows.push(r);
    let n = rows.len() as int;
    lemma_same_mentions(all, rows, n);
    assert(mentions(all) == mentions_upto(all, n) + row_mentions(r, n));
    assert(row_mentions(r, n) =~= Seq::new(
        r.culprits.len(),
        |i: int| Mention { process: r.culprits[i], duration_ms: r.duration_ms, row: rows.len() as int },
    ));
}

proof fn lemma_same_mentions(a: Seq<RowModel>, b: Seq<RowModel>, n: int)
    requires
        0 <= n <= a.len(),
        n <= b.len(),
        forall|i: int| 0 <= i < n ==> a[i] == b[i],
    ensures
        mentions_upto(a, n) == mentions_upto(b, n),
    decreases n,
{
    if n > 0 {
        lemma_same_mentions(a, b, n - 1);
    }
}

/// An event counts with its culprits and its duration.
pub proof fn lemma_rows_of_events(events: Seq<EventModel>)
    ensures
        rows_of(events).len() == events.len(),
        forall|i: int|
            0 <= i < events.len() ==> (#[trigger] rows_of(events)[i]).culprits == events[i].culprits
                && rows_of(events)[i].duration_ms == events[i].duration_ms,
{
}

/// What is told of a process: how often it is mentioned, for how long together, and the most CPU and memory
/// of all its mentions.
pub open spec fn told_of(a: AggModel, ms: Seq<Mention>) -> bool {
    let names = mention_names(ms);
    let n = ms.len() as int;
    &&& a.count == times(names, a.name, n)
    &&& a.count > 0
    &&& a.total_duration_ms == amount(names, mention_durations(ms), a.name, n)
    &&& at_most(Level::At(0), a.max_cpu)
    &&& forall|i: int|
        0 <= i < n && (#[trigger] ms[i]).process.name == a.name ==> !above(ms[i].process.cpu_usage, a.max_cpu)
            && ms[i].process.mem_used_mb <= a.max_mem_mb
    &&& a.max_cpu == Level::At(0) || exists|i: int|
        0 <= i < n && (#[trigger] ms[i]).process.name == a.name && ms[i].process.cpu_usage == a.max_cpu
    &&& exists|i: int| 0 <= i < n && (#[trigger] ms[i]).process.name == a.name && ms[i].process.mem_used_mb == a.max_mem_mb
}

proof fn lemma_peaks(ms: Seq<Mention>, g: Seq<int>, n: int)
    requires
        0 <= n <= g.len(),
        forall|a: int| 0 <= a < g.len() ==> 0 <= #[trigger] g[a] < ms.len(),
    ensures
        peak_cpu(ms, g, n) is At && at_most(Level::At(0), peak_cpu(ms, g, n)),
        forall|a: int|
            0 <= a < n ==> !above(ms[#[trigger] g[a]].process.cpu_usage, peak_cpu(ms, g, n)) && ms[g[a]].process.mem_used_mb
                <= peak_mem(ms, g, n),
        peak_cpu(ms, g, n) == Level::At(0) || exists|a: int|
            0 <= a < n && ms[#[trigger] g[a]].process.cpu_usage == peak_cpu(ms, g, n),
        n > 0 ==> exists|a: int| 0 <= a < n && ms[#[trigger] g[a]].process.mem_used_mb == peak_mem(ms, g, n),
        n == 0 ==> peak_mem(ms, g, n) == 0,
    decreases n,
{
    if n > 0 {
        lemma_peaks(ms, g, n - 1);
        let last = g[n - 1];
        let c0 = peak_cpu(ms, g, n - 1);
        let c1 = peak_cpu(ms, g, n);
        if c1 != Level::At(0) {
            if c1 == ms[last].process.cpu_usage {
                assert(ms[g[n - 1]].process.cpu_usage == c1);
            } else {
                let a = choose|a: int| 0 <= a < n - 1 && ms[#[trigger] g[a]].process.cpu_usage == c0;
                assert(ms[g[a]].process.cpu_usage == c1);
            }
        }
        let m0 = peak_mem(ms, g, n - 1);
        let m1 = peak_mem(ms, g, n);
        if m1 == ms[last].process.mem_used_mb {
            assert(ms[g[n - 1]].process.mem_used_mb == m1);
        } else {
            assert(n > 1);
            let a = choose|a: int| 0 <= a < n - 1 && ms[#[trigger] g[a]].process.mem_used_mb == m0;
            assert(ms[g[a]].process.mem_used_mb == m1);
        }
    }
}

proof fn lemma_groups_hold_all<K>(keys: Seq<K>, x: int, p: int)
    requires
        0 <= x < groups_of(keys).len(),
        0 <= p < keys.len(),
        keys[p] == keys[groups_of(keys)[x][0]],
    ensures
        groups_of(keys)[x].contains(p),
{
    let groups = groups_of(keys);
    lemma_groups_upto(keys, keys.len() as int);
    assert(is_member(groups, p));
    let y = choose|y: int| 0 <= y < groups.len() && (#[trigger] groups[y]).contains(p);
    let a = choose|a: int| 0 <= a < groups[y].len() && groups[y][a] == p;
    assert(keys[groups[y][a]] == keys[groups[y][0]]);
    if x < y {
        assert(keys[groups[x][0]] != keys[groups[y][0]]);
    } else if y < x {
        assert(keys[groups[y][0]] != keys[groups[x][0]]);
    }
}

proof fn lemma_agg_told(ms: Seq<Mention>, x: int)
    requires
        0 <= x < groups_of(mention_names(ms)).len(),
        group_fits(mention_durations(ms), groups_of(mention_names(ms))[x]),
    ensures
        told_of(aggs_of(ms)[x], ms),
{
    let names = mention_names(ms);
    let n = ms.len() as int;
    let groups = groups_of(names);
    let g = groups[x];
    let a = aggs_of(ms)[x];
    lemma_groups_count(names, mention_durations(ms), n);
    lemma_groups_upto(names, n);
    assert forall|i: int| 0 <= i < g.len() implies 0 <= #[trigger] g[i] < ms.len() by {}
    lemma_peaks(ms, g, g.len() as int);
    assert(a == agg_of(ms, g));
    lemma_amount_positive(names, mention_durations(ms), a.name, n);
    assert forall|i: int| 0 <= i < n && (#[trigger] ms[i]).process.name == a.name implies !above(
        ms[i].process.cpu_usage,
        a.max_cpu,
    ) && ms[i].process.mem_used_mb <= a.max_mem_mb by {
        assert(names[i] == names[g[0]]);
        lemma_groups_hold_all(names, x, i);
        let k = choose|k: int| 0 <= k < g.len() && g[k] == i;
        assert(ms[g[k]] == ms[i]);
    }
    if a.max_cpu != Level::At(0) {
        let k = choose|k: int| 0 <= k < g.len() && ms[#[trigger] g[k]].process.cpu_usage == a.max_cpu;
        assert(names[g[k]] == names[g[0]]);
        assert(ms[g[k]].process.name == a.name);
    }
    let k = choose|k: int| 0 <= k < g.len() && ms[#[trigger] g[k]].process.mem_used_mb == a.max_mem_mb;
    assert(names[g[k]] == names[g[0]]);
    assert(ms[g[k]].process.name == a.name);
}

proof fn lemma_amount_positive<K>(keys: Seq<K>, values: Seq<u64>, k: K, n: int)
    ensures
        amount(keys, values, k, n) >= 0,
    decreases n,
{
    if n > 0 {
        lemma_amount_positive(keys, values, k, n - 1);
    }
}

/// A process comes before another: it was a culprit more often, or as often and no shorter.
pub open spec fn more_blamed(a: AggModel, b: AggModel) -> bool {
    a.count > b.count || a.count == b.count && a.total_duration_ms >= b.total_duration_ms
}

/// The ranking of culprits tells of each process all its mentions, the most blamed first, each process once,
/// and leaves out none that is more blamed than one it holds; with room for all it holds all.
pub proof fn lemma_culprits_ranked(rows: Seq<RowModel>, limit: int)
    requires
        countable(rows),
        limit >= 0,
    ensures
        ({
            let ms = mentions(rows);
            let r = culprit_ranking(rows, limit);
            &&& r.len() <= limit
            &&& forall|i: int| 0 <= i < r.len() ==> told_of(#[trigger] r[i], ms)
            &&& forall|i: int, j: int| 0 <= i < j < r.len() ==> more_blamed(#[trigger] r[i], #[trigger] r[j])
            &&& forall|i: int, j: int| 0 <= i < j < r.len() ==> (#[trigger] r[i]).name != (#[trigger] r[j]).name
            &&& forall|x: int|
                0 <= x < ms.len() && r.len() < limit ==> exists|i: int|
                    0 <= i < r.len() && (#[trigger] r[i]).name == (#[trigger] ms[x]).process.name
            &&& forall|b: AggModel, i: int|
                told_of(b, ms) && 0 <= i < r.len() && (forall|j: int| 0 <= j < r.len() ==> (#[trigger] r[j]).name != b.name)
                    ==> #[trigger] more_blamed(r[i], b)
        }),
{
    let ms = mentions(rows);
    let names = mention_names(ms);
    let n = ms.len() as int;
    let groups = groups_of(names);
    let aggs = aggs_of(ms);
    let keys = blame_keys(aggs);
    let order = ascending(keys);
    let ranked = reordered(aggs, order);
    let r = culprit_ranking(rows, limit);
    lemma_ascending(keys);
    lemma_groups_upto(names, n);
    lemma_groups_count(names, mention_durations(ms), n);
    assert(r == first_of(ranked, limit));
    assert forall|x: int| 0 <= x < aggs.len() implies told_of(#[trigger] aggs[x], ms) by {
        lemma_agg_told(ms, x);
    }
    assert forall|i: int| 0 <= i < r.len() implies told_of(#[trigger] r[i], ms) by {
        assert(r[i] == aggs[order[i]]);
    }
    assert forall|i: int, j: int| 0 <= i <= j < ranked.len() implies more_blamed(#[trigger] ranked[i], #[trigger] ranked[j]) by {
        if i < j {
            assert(keys[order[i]] <= keys[order[j]]);
        }
    }
    assert forall|i: int, j: int| 0 <= i < j < r.len() implies more_blamed(#[trigger] r[i], #[trigger] r[j]) && r[i].name
        != r[j].name by {
        assert(r[i] == ranked[i] && r[j] == ranked[j]);
        let x = order[i];
        let y = order[j];
        if x < y {
            assert(names[groups[x][0]] != names[groups[y][0]]);
        } else {
            assert(names[groups[y][0]] != names[groups[x][0]]);
        }
    }
    assert forall|x: int| 0 <= x < n implies exists|i: int|
        0 <= i < ranked.len() && (#[trigger] ranked[i]).name == (#[trigger] ms[x]).process.name by {
        assert(is_member(groups, x));
        let g = choose|g: int| 0 <= g < groups.len() && (#[trigger] groups[g]).contains(x);
        let a = choose|a: int| 0 <= a < groups[g].len() && groups[g][a] == x;
        assert(names[groups[g][a]] == names[groups[g][0]]);
        let i = lemma_position(order, aggs.len() as int, g);
        assert(ranked[i] == aggs[g]);
        assert(names[x] == ms[x].process.name);
    }
    assert forall|x: int| 0 <= x < n && r.len() < limit implies exists|i: int|
        0 <= i < r.len() && (#[trigger] r[i]).name == (#[trigger] ms[x]).process.name by {
        assert(r == ranked);
    }
    assert forall|b: AggModel, i: int|
        told_of(b, ms) && 0 <= i < r.len() && (forall|j: int| 0 <= j < r.len() ==> (#[trigger] r[j]).name != b.name) implies #[trigger] more_blamed(
        r[i],
        b,
    ) by {
        let x = choose|x: int| 0 <= x < n && (#[trigger] ms[x]).process.name == b.name && ms[x].process.mem_used_mb == b.max_mem_mb;
        let k = choose|k: int| 0 <= k < ranked.len() && (#[trigger] ranked[k]).name == ms[x].process.name;
        assert(ranked[k] == aggs[order[k]]);
        assert(told_of(ranked[k], ms));
        if k < r.len() {
            assert(r[k] == ranked[k]);
        }
        assert(r[i] == ranked[i]);
        assert(more_blamed(ranked[i], ranked[k]));
        assert(ranked[k].count == b.count && ranked[k].total_duration_ms == b.total_duration_ms);
    }
}

/// The culprit that a summary names leads the ranking; without mentions there is a dash.
pub proof fn lemma_leader(ranking: Seq<AggModel>)
    ensures
        ranking.len() > 0 ==> leader(ranking) == ranking[0].name,
        ranking.len() == 0 ==> leader(ranking) == "—"@,
{
}

/// The mentions of a process, as they are weighed: as many as there are, each with the event, the CPU and the
/// memory use of a mention of that process, and their durations together.
pub proof fn lemma_mention_groups(rows: Seq<RowModel>)
    requires
        countable(rows),
    ensures
        ({
            let ms = mentions(rows);
            let names = mention_names(ms);
            let n = ms.len() as int;
            let r = mention_groups(ms);
            &&& forall|x: int|
                0 <= x < r.len() ==> {
                    let g = #[trigger] r[x];
                    &&& g.count == times(names, g.name, n)
                    &&& g.total_duration_ms == amount(names, mention_durations(ms), g.name, n)
                    &&& g.events.len() == g.count && g.cpus.len() == g.count && g.mems.len() == g.count
                    &&& forall|i: int|
                        0 <= i < g.count ==> mention_of(ms, g.name, #[trigger] g.events[i], g.cpus[i], g.mems[i])
                }
            &&& forall|x: int, y: int| 0 <= x < y < r.len() ==> (#[trigger] r[x]).name != (#[trigger] r[y]).name
        }),
{
    let ms = mentions(rows);
    let names = mention_names(ms);
    let n = ms.len() as int;
    let groups = groups_of(names);
    let r = mention_groups(ms);
    lemma_groups_upto(names, n);
    lemma_groups_count(names, mention_durations(ms), n);
    assert forall|x: int| 0 <= x < r.len() implies {
        let g = #[trigger] r[x];
        &&& g.count == times(names, g.name, n)
        &&& g.total_duration_ms == amount(names, mention_durations(ms), g.name, n)
        &&& g.events.len() == g.count && g.cpus.len() == g.count && g.mems.len() == g.count
        &&& forall|i: int| 0 <= i < g.count ==> mention_of(ms, g.name, #[trigger] g.events[i], g.cpus[i], g.mems[i])
    } by {
        let p = groups[x];
        let g = r[x];
        assert(group_fits(mention_durations(ms), p));
        assert(g == group_model(ms, p));
        lemma_amount_positive(names, mention_durations(ms), g.name, n);
        assert forall|i: int| 0 <= i < g.count implies mention_of(ms, g.name, #[trigger] g.events[i], g.cpus[i], g.mems[i]) by {
            assert(names[p[i]] == names[p[0]]);
            assert(ms[p[i]].process.name == g.name);
        }
    }
}

/// Some mention of a process has this event, CPU use and memory use.
pub open spec fn mention_of(ms: Seq<Mention>, name: Seq<char>, row: int, cpu: Level, mem: u64) -> bool {
    exists|k: int|
        0 <= k < ms.len() && (#[trigger] ms[k]).process.name == name && ms[k].row == row && ms[k].process.cpu_usage == cpu
            && ms[k].process.mem_used_mb == mem
}

/// Weighted culprits are the groups with their own weights, the heaviest first; what is left out is no heavier
/// than what is held.
pub proof fn lemma_weights_ranked(groups: Seq<GroupModel>, weights: Seq<Level>, limit: int)
    requires
        weights.len() == groups.len(),
        limit >= 0,
    ensures
        ({
            let r = weight_ranking(weighted(groups, weights), limit);
            &&& r.len() == (if limit < groups.len() {
                limit
            } else {
                groups.len() as int
            })
            &&& forall|i: int|
                0 <= i < r.len() ==> exists|x: int|
                    0 <= x < groups.len() && (#[trigger] groups[x]).name == (#[trigger] r[i]).name && weights[x] == r[i].weight
                        && groups[x].count == r[i].count && groups[x].total_duration_ms == r[i].total_duration_ms
            &&& forall|i: int, j: int| 0 <= i < j < r.len() ==> !above((#[trigger] r[j]).weight, (#[trigger] r[i]).weight)
            &&& forall|x: int, i: int|
                0 <= x < groups.len() && 0 <= i < r.len() && #[trigger] left_out(r, groups[x], weights[x]) ==> !above(
                    weights[x],
                    (#[trigger] r[i]).weight,
                )
        }),
{
    let all = weighted(groups, weights);
    let keys = weight_keys(all);
    let order = ascending(keys);
    let ranked = reordered(all, order);
    let r = weight_ranking(all, limit);
    lemma_ascending(keys);
    assert(r == first_of(ranked, limit));
    assert forall|i: int| 0 <= i < r.len() implies exists|x: int|
        0 <= x < groups.len() && (#[trigger] groups[x]).name == (#[trigger] r[i]).name && weights[x] == r[i].weight
            && groups[x].count == r[i].count && groups[x].total_duration_ms == r[i].total_duration_ms by {
        let x = order[i];
        assert(r[i] == all[x]);
        assert(groups[x].name == r[i].name);
    }
    assert forall|i: int, j: int| 0 <= i < j < r.len() implies !above((#[trigger] r[j]).weight, (#[trigger] r[i]).weight) by {
        assert(keys[order[i]] <= keys[order[j]]);
        assert(r[i] == all[order[i]] && r[j] == all[order[j]]);
    }
    assert forall|x: int, i: int|
        0 <= x < groups.len() && 0 <= i < r.len() && #[trigger] left_out(r, groups[x], weights[x]) implies !above(
        weights[x],
        (#[trigger] r[i]).weight,
    ) by {
        let at = lemma_position(order, all.len() as int, x);
        assert(ranked[at] == all[x]);
        if at < r.len() {
            assert(r[at] == all[x]);
        } else {
            assert(keys[order[i]] <= keys[order[at]]);
            assert(r[i] == all[order[i]]);
        }
    }
}

/// A group with its weight is not among ranked culprits.
pub open spec fn left_out(r: Seq<WeightedModel>, g: GroupModel, weight: Level) -> bool {
    forall|i: int| 0 <= i < r.len() ==> (#[trigger] r[i]).name != g.name || r[i].weight != weight
}

/// A class counts its causes out of all of them; each class comes once, the most frequent first, and every
/// cause is in one.
pub proof fn lemma_classes_count_causes(causes: Seq<Seq<char>>)
    requires
        causes.len() <= u64::MAX,
    ensures
        ({
            let r = class_ranking(causes);
            let n = causes.len() as int;
            &&& forall|i: int|
                0 <= i < r.len() ==> {
                    let c = #[trigger] r[i];
                    c.count == times(classes_of(causes), c.cause_type, n) && c.count > 0 && c.total == n
                }
            &&& forall|i: int, j: int| 0 <= i < j < r.len() ==> (#[trigger] r[i]).count >= (#[trigger] r[j]).count
            &&& forall|i: int, j: int| 0 <= i < j < r.len() ==> (#[trigger] r[i]).cause_type != (#[trigger] r[j]).cause_type
            &&& forall|x: int|
                0 <= x < n ==> exists|i: int| 0 <= i < r.len() && (#[trigger] r[i]).cause_type == class_of(#[trigger] causes[x])
        }),
{
    let n = causes.len() as int;
    let classes = classes_of(causes);
    let groups = groups_of(classes);
    let all = class_counts(causes);
    let keys = class_keys(all);
    let order = ascending(keys);
    let r = class_ranking(causes);
    let zeros = Seq::new(causes.len(), |i: int| 0u64);
    lemma_groups_count(classes, zeros, n);
    lemma_groups_upto(classes, n);
    lemma_ascending(keys);
    assert forall|i: int| 0 <= i < r.len() implies {
        let c = #[trigger] r[i];
        c.count == times(classes, c.cause_type, n) && c.count > 0 && c.total == n
    } by {
        let x = order[i];
        let g = groups[x];
        assert(r[i] == all[x]);
        assert(g.len() >= 1);
        lemma_times_bounded(classes, classes[g[0]], n);
    }
    assert forall|i: int, j: int| 0 <= i < j < r.len() implies (#[trigger] r[i]).count >= (#[trigger] r[j]).count && r[i].cause_type
        != r[j].cause_type by {
        let x = order[i];
        let y = order[j];
        assert(keys[x] <= keys[y]);
        if x < y {
            assert(classes[groups[x][0]] != classes[groups[y][0]]);
        } else {
            assert(classes[groups[y][0]] != classes[groups[x][0]]);
        }
    }
    assert forall|x: int| 0 <= x < n implies exists|i: int|
        0 <= i < r.len() && (#[trigger] r[i]).cause_type == class_of(#[trigger] causes[x]) by {
        assert(is_member(groups, x));
        let g = choose|g: int| 0 <= g < groups.len() && (#[trigger] groups[g]).contains(x);
        let a = choose|a: int| 0 <= a < groups[g].len() && groups[g][a] == x;
        assert(classes[groups[g][a]] == classes[groups[g][0]]);
        let i = lemma_position(order, all.len() as int, g);
        assert(r[i] == all[g]);
        assert(classes[x] == class_of(causes[x]));
    }
}

proof fn lemma_times_bounded<K>(keys: Seq<K>, k: K, n: int)
    requires
        0 <= n,
    ensures
        0 <= times(keys, k, n) <= n,
    decreases n,
{
    if n > 0 {
        lemma_times_bounded(keys, k, n - 1);
    }
}

/// The causes of one more row come behind those before.
pub proof fn lemma_causes_gather(rows: Seq<Seq<char>>, n: int)
    requires
        0 <= n < rows.len(),
    ensures
        causes_upto(rows, n + 1) == causes_upto(rows, n) + listed(rows[n]),
        causes_upto(rows, 0) == Seq::<Seq<char>>::empty(),
{
}

/// Causes are put in classes by how they begin.
pub proof fn lemma_classes_by_beginning(rest: Seq<char>)
    ensures
        class_of("CPU usage"@ + rest) == "CPU 过高"@,
        class_of("CPU spike"@ + rest) == "CPU 突增"@,
        class_of("Disk write"@ + rest) == "磁盘突增"@,
        class_of("Network"@ + rest) == "网络突增"@,
        class_of("Memory available"@ + rest) == "内存骤降"@,
        class_of("Memory usage"@ + rest) == "内存过高"@,
        class_of("Available memory"@ + rest) == "内存不足"@,
        class_of("Commit charge"@ + rest) == "提交电荷"@,
        class_of("Memory paging"@ + rest) == "内存分页"@,
        class_of("Disk busy"@ + rest) == "其他"@,
        class_of("Thermal"@ + rest) == "其他"@,
{
    reveal_strlit("CPU usage");
    reveal_strlit("CPU spike");
    reveal_strlit("Disk write");
    reveal_strlit("Network");
    reveal_strlit("Memory available");
    reveal_strlit("Memory usage");
    reveal_strlit("Available memory");
    reveal_strlit("Commit charge");
    reveal_strlit("Memory paging");
    reveal_strlit("Disk busy");
    reveal_strlit("Thermal");
    lemma_begins("CPU usage"@, rest);
    lemma_begins("CPU spike"@, rest);
    lemma_differs("CPU usage"@, "CPU spike"@ + rest, 4);
    lemma_begins("Disk write"@, rest);
    lemma_differs("CPU usage"@, "Disk write"@ + rest, 0);
    lemma_differs("CPU spike"@, "Disk write"@ + rest, 0);
    lemma_begins("Network"@, rest);
    lemma_differs("CPU usage"@, "Network"@ + rest, 0);
    lemma_differs("CPU spike"@, "Network"@ + rest, 0);
    lemma_differs("Disk write"@, "Network"@ + rest, 0);
    lemma_begins("Memory available"@, rest);
    lemma_differs("CPU usage"@, "Memory available"@ + rest, 0);
    lemma_differs("CPU spike"@, "Memory available"@ + rest, 0);
    lemma_differs("Disk write"@, "Memory available"@ + rest, 0);
    lemma_differs("Network"@, "Memory available"@ + rest, 0);
    lemma_begins("Memory usage"@, rest);
    lemma_differs("CPU usage"@, "Memory usage"@ + rest, 0);
    lemma_differs("CPU spike"@, "Memory usage"@ + rest, 0);
    lemma_differs("Disk write"@, "Memory usage"@ + rest, 0);
    lemma_differs("Network"@, "Memory usage"@ + rest, 0);
    lemma_differs("Memory available"@, "Memory usage"@ + rest, 7);
    lemma_begins("Available memory"@, rest);
    lemma_differs("CPU usage"@, "Available memory"@ + rest, 0);
    lemma_differs("CPU spike"@, "Available memory"@ + rest, 0);
    lemma_differs("Disk write"@, "Available memory"@ + rest, 0);
    lemma_differs("Network"@, "Available memory"@ + rest, 0);
    lemma_differs("Memory available"@, "Available memory"@ + rest, 0);
    lemma_differs("Memory usage"@, "Available memory"@ + rest, 0);
    lemma_begins("Commit charge"@, rest);
    lemma_differs("CPU usage"@, "Commit charge"@ + rest, 1);
    lemma_differs("CPU spike"@, "Commit charge"@ + rest, 1);
    lemma_differs("Disk write"@, "Commit charge"@ + rest, 0);
    lemma_differs("Network"@, "Commit charge"@ + rest, 0);
    lemma_differs("Memory available"@, "Commit charge"@ + rest, 0);
    lemma_differs("Memory usage"@, "Commit charge"@ + rest, 0);
    lemma_differs("Available memory"@, "Commit charge"@ + rest, 0);
    lemma_begins("Memory paging"@, rest);
    lemma_differs("CPU usage"@, "Memory paging"@ + rest, 0);
    lemma_differs("CPU spike"@, "Memory paging"@ + rest, 0);
    lemma_differs("Disk write"@, "Memory paging"@ + rest, 0);
    lemma_differs("Network"@, "Memory paging"@ + rest, 0);
    lemma_differs("Memory available"@, "Memory paging"@ + rest, 7);
    lemma_differs("Memory usage"@, "Memory paging"@ + rest, 7);
    lemma_differs("Available memory"@, "Memory paging"@ + rest, 0);
    lemma_differs("Commit charge"@, "Memory paging"@ + rest, 0);
    lemma_begins("Disk busy"@, rest);
    lemma_differs("CPU usage"@, "Disk busy"@ + rest, 0);
    lemma_differs("CPU spike"@, "Disk busy"@ + rest, 0);
    lemma_differs("Disk write"@, "Disk busy"@ + rest, 5);
    lemma_differs("Network"@, "Disk busy"@ + rest, 0);
    lemma_differs("Memory available"@, "Disk busy"@ + rest, 0);
    lemma_differs("Memory usage"@, "Disk busy"@ + rest, 0);
    lemma_differs("Available memory"@, "Disk busy"@ + rest, 0);
    lemma_differs("Commit charge"@, "Disk busy"@ + rest, 0);
    lemma_differs("Memory paging"@, "Disk busy"@ + rest, 0);
    lemma_begins("Thermal"@, rest);
    lemma_differs("CPU usage"@, "Thermal"@ + rest, 0);
    lemma_differs("CPU spike"@, "Thermal"@ + rest, 0);
    lemma_differs("Disk write"@, "Thermal"@ + rest, 0);
    lemma_differs("Network"@, "Thermal"@ + rest, 0);
    lemma_differs("Memory available"@, "Thermal"@ + rest, 0);
    lemma_differs("Memory usage"@, "Thermal"@ + rest, 0);
    lemma_differs("Available memory"@, "Thermal"@ + rest, 0);
    lemma_differs("Commit charge"@, "Thermal"@ + rest, 0);
    lemma_differs("Memory paging"@, "Thermal"@ + rest, 0);
}

proof fn lemma_begins(front: Seq<char>, rest: Seq<char>)
    ensures
        front.is_prefix_of(front + rest),
{
    assert(front =~= (front + rest).subrange(0, front.len() as int));
}

proof fn lemma_differs(p: Seq<char>, s: Seq<char>, i: int)
    requires
        0 <= i < p.len(),
        i < s.len(),
        p[i] != s[i],
    ensures
        !p.is_prefix_of(s),
{
    if p.is_prefix_of(s) {
        assert(p =~= s.subrange(0, p.len() as int));
        assert(p[i] == s.subrange(0, p.len() as int)[i]);
    }
}

/// The hour of a time that a blank separates from its date.
pub proof fn lemma_second_word(date: Seq<char>, hour: Seq<char>, rest: Seq<char>)
    requires
        forall|i: int| 0 <= i < date.len() ==> date[i] != ' ',
        forall|i: int| 0 <= i < hour.len() ==> hour[i] != ' ',
    ensures
        second_word(date) is None,
        second_word(date + seq![' '] + hour) == Some(hour),
        second_word(date + seq![' '] + hour + seq![' '] + rest) == Some(hour),
{
    let blank = seq![' '];
    let a = date + blank + hour;
    let b = date + blank + hour + blank + rest;
    lemma_space_from(date, 0, date.len() as int);
    lemma_space_from(a, 0, date.len() as int);
    lemma_space_from(a, date.len() as int + 1, a.len() as int);
    lemma_space_from(b, 0, date.len() as int);
    lemma_space_from(b, date.len() as int + 1, a.len() as int);
    assert(a.subrange(date.len() as int + 1, a.len() as int) =~= hour);
    assert(b.subrange(date.len() as int + 1, a.len() as int) =~= hour);
}

proof fn lemma_space_from(s: Seq<char>, from: int, at: int)
    requires
        0 <= from <= at <= s.len(),
        at < s.len() ==> s[at] == ' ',
        forall|i: int| from <= i < at ==> s[i] != ' ',
    ensures
        space_from(s, from) == at,
    decreases at - from,
{
    if from < at {
        lemma_space_from(s, from + 1, at);
    }
}

/// The peak hour is that of a piece of time with as many events as any, the last such one; without pieces
/// there is a dash.
pub proof fn lemma_peak_hour(points: Seq<TrendPoint>)
    ensures
        points.len() == 0 ==> peak_hour_of(points) == "—"@,
        points.len() > 0 ==> exists|i: int|
            0 <= i < points.len() && peak_hour_of(points) == (match second_word((#[trigger] points[i]).bucket@) {
                Some(h) => h,
                None => "—"@,
            }) && (forall|j: int| 0 <= j < points.len() ==> (#[trigger] points[j]).count <= points[i].count) && (forall|j: int|
                i < j < points.len() ==> (#[trigger] points[j]).count < points[i].count),
{
    if points.len() > 0 {
        lemma_fullest(points, points.len() as int);
        let i = fullest(points, points.len() as int);
        assert(points[i] == points[i]);
    }
}

proof fn lemma_fullest(points: Seq<TrendPoint>, n: int)
    requires
        1 <= n <= points.len(),
    ensures
        0 <= fullest(points, n) < n,
        forall|j: int| 0 <= j < n ==> (#[trigger] points[j]).count <= points[fullest(points, n)].count,
        forall|j: int| fullest(points, n) < j < n ==> (#[trigger] points[j]).count < points[fullest(points, n)].count,
    decreases n,
{
    if n > 1 {
        lemma_fullest(points, n - 1);
    }
}

/// The longest duration is that of an event and no shorter than any, or one millisecond where none is longer.
pub proof fn lemma_longest(events: Seq<EventModel>, n: int)
    requires
        0 <= n <= events.len(),
    ensures
        longest_upto(events, n) >= 1,
        forall|i: int| 0 <= i < n ==> (#[trigger] events[i]).duration_ms <= longest_upto(events, n),
        longest_upto(events, n) == 1 || exists|i: int| 0 <= i < n && (#[trigger] events[i]).duration_ms == longest_upto(events, n),
    decreases n,
{
    if n > 0 {
        lemma_longest(events, n - 1);
        let before = longest_upto(events, n - 1);
        let after = longest_upto(events, n);
        if after == before && before != 1 {
            let i = choose|i: int| 0 <= i < n - 1 && (#[trigger] events[i]).duration_ms == before;
            assert(events[i].duration_ms == after);
        } else if after != before {
            assert(events[n - 1].duration_ms == after);
        }
    }
}

} // verus!
