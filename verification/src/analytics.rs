//! Aggregates over stored events: who was to blame, for what, and when.

use crate::cause::{EventModel, StutterEvent};
use crate::grouping::{
    group_fits, group_ok, group_sum, group_texts, groups_fit, groups_of, groups_ok, lemma_groups_upto, lemma_sizes_add_up,
    members, sum_group, total_members,
};
use crate::labels::{class_of, classify_cause};
use crate::level::{higher, sort_key, Level};
use crate::order::{ascending, ascending_order, lemma_ascending, positions, reordered};
use crate::json::{list_of, listed};
use crate::text::{chars_of, push_text, same_text, texts};
use crate::types::{briefs, copy_briefs, first_of, ProcessBrief, ProcessModel};
use vstd::prelude::*;

verus! {

/// The culprits of one event and how long the event lasted.
#[derive(Debug)]
pub struct CulpritRow {
    pub culprits: Vec<ProcessBrief>,
    pub duration_ms: u64,
}

/// What a [`CulpritRow`] holds.
pub struct RowModel {
    pub culprits: Seq<ProcessModel>,
    pub duration_ms: u64,
}

impl View for CulpritRow {
    type V = RowModel;

    open spec fn view(&self) -> RowModel {
        RowModel { culprits: briefs(self.culprits@), duration_ms: self.duration_ms }
    }
}

/// What rows hold.
pub open spec fn row_models(rows: Seq<CulpritRow>) -> Seq<RowModel> {
    Seq::new(rows.len(), |i: int| rows[i]@)
}

/// What events hold.
pub open spec fn event_models(events: Seq<StutterEvent>) -> Seq<EventModel> {
    Seq::new(events.len(), |i: int| events[i]@)
}

/// The rows of events.
pub open spec fn rows_of(events: Seq<EventModel>) -> Seq<RowModel> {
    Seq::new(
        events.len(),
        |i: int| RowModel { culprits: events[i].culprits, duration_ms: events[i].duration_ms },
    )
}

/// One process named as a culprit of the event in row `row`.
pub struct Mention {
    pub process: ProcessModel,
    pub duration_ms: u64,
    pub row: int,
}

/// The mentions of one row.
pub open spec fn row_mentions(r: RowModel, row: int) -> Seq<Mention> {
    Seq::new(r.culprits.len(), |i: int| Mention { process: r.culprits[i], duration_ms: r.duration_ms, row })
}

/// The mentions of the first `n` rows.
pub open spec fn mentions_upto(rows: Seq<RowModel>, n: int) -> Seq<Mention>
    decreases n,
{
    if n <= 0 {
        seq![]
    } else {
        mentions_upto(rows, n - 1) + row_mentions(rows[n - 1], n - 1)
    }
}

/// All mentions, row by row.
pub open spec fn mentions(rows: Seq<RowModel>) -> Seq<Mention> {
    mentions_upto(rows, rows.len() as int)
}

/// The names of mentions.
pub open spec fn mention_names(ms: Seq<Mention>) -> Seq<Seq<char>> {
    Seq::new(ms.len(), |i: int| ms[i].process.name)
}

/// The durations of mentions.
pub open spec fn mention_durations(ms: Seq<Mention>) -> Seq<u64> {
    Seq::new(ms.len(), |i: int| ms[i].duration_ms)
}

/// The mentions of each process can be counted and their durations summed.
pub open spec fn countable(rows: Seq<RowModel>) -> bool {
    groups_fit(mention_durations(mentions(rows)), groups_of(mention_names(mentions(rows))))
}

/// A flat list of mentions, column by column.
struct Columns {
    names: Vec<String>,
    durations: Vec<u64>,
    cpus: Vec<Level>,
    mems: Vec<u64>,
    rows: Vec<usize>,
}

impl Columns {
    spec fn holds(&self, ms: Seq<Mention>) -> bool {
        &&& texts(self.names@) == mention_names(ms)
        &&& self.durations@ == mention_durations(ms)
        &&& self.cpus@ == Seq::new(ms.len(), |i: int| ms[i].process.cpu_usage)
        &&& self.mems@ == Seq::new(ms.len(), |i: int| ms[i].process.mem_used_mb)
        &&& positions(self.rows@) == Seq::new(ms.len(), |i: int| ms[i].row)
    }
}

fn flatten(rows: &Vec<CulpritRow>) -> (c: Columns)
    ensures
        c.holds(mentions(row_models(rows@))),
{
    let ghost all = row_models(rows@);
    let mut c = Columns {
        names: Vec::new(),
        durations: Vec::new(),
        cpus: Vec::new(),
        mems: Vec::new(),
        rows: Vec::new(),
    };
    let mut n: usize = 0;
    proof {
        let none = mentions_upto(all, 0);
        assert(texts(c.names@) =~= mention_names(none));
        assert(c.durations@ =~= mention_durations(none));
        assert(c.cpus@ =~= Seq::new(none.len(), |i: int| none[i].process.cpu_usage));
        assert(c.mems@ =~= Seq::new(none.len(), |i: int| none[i].process.mem_used_mb));
        assert(positions(c.rows@) =~= Seq::new(none.len(), |i: int| none[i].row));
    }
    while n < rows.len()
        invariant
            n <= rows@.len(),
            all == row_models(rows@),
            c.holds(mentions_upto(all, n as int)),
        decreases rows@.len() - n,
    {
        let ghost before = mentions_upto(all, n as int);
        let ghost here = row_mentions(all[n as int], n as int);
        let mut k: usize = 0;
        proof {
            assert(before + here.take(0) =~= before);
        }
        while k < rows[n].culprits.len()
            invariant
                n < rows@.len(),
                all == row_models(rows@),
                here == row_mentions(all[n as int], n as int),
                here.len() == rows@[n as int].culprits@.len(),
                k <= here.len(),
                c.holds(before + here.take(k as int)),
            decreases here.len() - k,
        {
            let p = &rows[n].culprits[k];
            let ghost old_ms = before + here.take(k as int);
            let ghost ms = before + here.take(k + 1);
            let ghost old_rows = c.rows@;
            push_text(&mut c.names, p.name.clone());
            c.durations.push(rows[n].duration_ms);
            c.cpus.push(p.cpu_usage);
            c.mems.push(p.mem_used_mb);
            c.rows.push(n);
            proof {
                let m = here[k as int];
                assert(m.process == p@);
                assert(ms =~= old_ms.push(m));
                assert(mention_names(ms) =~= mention_names(old_ms).push(p.name@));
                assert(c.durations@ =~= mention_durations(ms));
                assert(c.cpus@ =~= Seq::new(ms.len(), |i: int| ms[i].process.cpu_usage));
                assert(c.mems@ =~= Seq::new(ms.len(), |i: int| ms[i].process.mem_used_mb));
                assert(positions(c.rows@) =~= positions(old_rows).push(n as int));
                assert(positions(c.rows@) =~= Seq::new(ms.len(), |i: int| ms[i].row));
            }
            k += 1;
        }
        proof {
            assert(here.take(here.len() as int) =~= here);
        }
        n += 1;
    }
    c
}

/// What the events of a range say of one process.
#[derive(Debug)]
pub struct CulpritAgg {
    pub name: String,
    /// In how many stutters it was a culprit.
    pub count: u32,
    pub total_duration_ms: u64,
    pub max_cpu: Level,
    pub max_mem_mb: u64,
}

/// What a [`CulpritAgg`] holds.
pub struct AggModel {
    pub name: Seq<char>,
    pub count: u32,
    pub total_duration_ms: u64,
    pub max_cpu: Level,
    pub max_mem_mb: u64,
}

impl View for CulpritAgg {
    type V = AggModel;

    open spec fn view(&self) -> AggModel {
        AggModel {
            name: self.name@,
            count: self.count,
            total_duration_ms: self.total_duration_ms,
            max_cpu: self.max_cpu,
            max_mem_mb: self.max_mem_mb,
        }
    }
}

/// What aggregates hold.
pub open spec fn agg_models(v: Seq<CulpritAgg>) -> Seq<AggModel> {
    Seq::new(v.len(), |i: int| v[i]@)
}

/// The highest CPU use among the first `n` members of a group, at least zero.
pub open spec fn peak_cpu(ms: Seq<Mention>, g: Seq<int>, n: int) -> Level
    decreases n,
{
    if n <= 0 {
        Level::At(0)
    } else {
        higher(peak_cpu(ms, g, n - 1), ms[g[n - 1]].process.cpu_usage)
    }
}

/// The highest memory use among the first `n` members of a group.
pub open spec fn peak_mem(ms: Seq<Mention>, g: Seq<int>, n: int) -> u64
    decreases n,
{
    if n <= 0 {
        0
    } else {
        let before = peak_mem(ms, g, n - 1);
        let here = ms[g[n - 1]].process.mem_used_mb;
        if before >= here {
            before
        } else {
            here
        }
    }
}

/// The aggregate of the mentions of one process.
pub open spec fn agg_of(ms: Seq<Mention>, g: Seq<int>) -> AggModel {
    AggModel {
        name: ms[g[0]].process.name,
        count: g.len() as u32,
        total_duration_ms: group_sum(mention_durations(ms), g) as u64,
        max_cpu: peak_cpu(ms, g, g.len() as int),
        max_mem_mb: peak_mem(ms, g, g.len() as int),
    }
}

/// The aggregates of all processes, in the order in which they are first named.
pub open spec fn aggs_of(ms: Seq<Mention>) -> Seq<AggModel> {
    let groups = groups_of(mention_names(ms));
    Seq::new(groups.len(), |i: int| agg_of(ms, groups[i]))
}

/// The keys of a ranking: more stutters first, then more time.
pub open spec fn blame_keys(aggs: Seq<AggModel>) -> Seq<i128> {
    Seq::new(
        aggs.len(),
        |i: int| (-(aggs[i].count as int * 0x1_0000_0000_0000_0000 + aggs[i].total_duration_ms)) as i128,
    )
}

/// The `limit` processes that were culprits most often, then longest.
pub open spec fn culprit_ranking(rows: Seq<RowModel>, limit: int) -> Seq<AggModel> {
    let aggs = aggs_of(mentions(rows));
    first_of(reordered(aggs, ascending(blame_keys(aggs))), limit)
}

fn aggregate(c: &Columns, g: &Vec<usize>, Ghost(ms): Ghost<Seq<Mention>>) -> (a: CulpritAgg)
    requires
        c.holds(ms),
        group_ok(positions(g@), mention_names(ms), ms.len() as int),
        group_fits(mention_durations(ms), positions(g@)),
    ensures
        a@ == agg_of(ms, positions(g@)),
{
    let ghost p = positions(g@);
    let ghost names = mention_names(ms);
    proof {
        assert forall|i: int| 0 <= i < g@.len() implies #[trigger] g@[i] < ms.len() by {
            assert(p[i] == g@[i]);
        }
    }
    let total = sum_group(&c.durations, g);
    let mut cpu = Level::At(0);
    let mut mem: u64 = 0;
    let mut i: usize = 0;
    while i < g.len()
        invariant
            i <= g@.len(),
            p == positions(g@),
            names == mention_names(ms),
            c.holds(ms),
            group_ok(p, names, ms.len() as int),
            cpu == peak_cpu(ms, p, i as int),
            mem == peak_mem(ms, p, i as int),
        decreases g@.len() - i,
    {
        proof {
            assert(p[i as int] == g@[i as int]);
            assert(c.cpus@[p[i as int]] == ms[p[i as int]].process.cpu_usage);
            assert(c.mems@[p[i as int]] == ms[p[i as int]].process.mem_used_mb);
        }
        cpu = cpu.max(c.cpus[g[i]]);
        if c.mems[g[i]] > mem {
            mem = c.mems[g[i]];
        }
        i += 1;
    }
    proof {
        assert(p[0] == g@[0]);
        assert(texts(c.names@).len() == c.names@.len());
        assert(texts(c.names@)[p[0]] == names[p[0]]);
    }
    CulpritAgg {
        name: c.names[g[0]].clone(),
        count: g.len() as u32,
        total_duration_ms: total,
        max_cpu: cpu,
        max_mem_mb: mem,
    }
}

fn push_agg(v: &mut Vec<CulpritAgg>, a: CulpritAgg)
    ensures
        agg_models(final(v)@) == agg_models(old(v)@).push(a@),
        final(v)@.len() == old(v)@.len() + 1,
{
    v.push(a);
    proof {
        assert(agg_models(v@) =~= agg_models(old(v)@).push(a@));
    }
}

impl CulpritAgg {
    /// A copy.
    pub fn copy(&self) -> (r: CulpritAgg)
        ensures
            r@ == self@,
    {
        CulpritAgg {
            name: self.name.clone(),
            count: self.count,
            total_duration_ms: self.total_duration_ms,
            max_cpu: self.max_cpu,
            max_mem_mb: self.max_mem_mb,
        }
    }
}

/// The `limit` processes that were culprits most often, then longest.
pub fn load_culprits(rows: &Vec<CulpritRow>, limit: usize) -> (r: Vec<CulpritAgg>)
    requires
        countable(row_models(rows@)),
    ensures
        agg_models(r@) == culprit_ranking(row_models(rows@), limit as int),
{
    let c = flatten(rows);
    let ghost ms = mentions(row_models(rows@));
    let groups = group_texts(&c.names);
    let mut aggs: Vec<CulpritAgg> = Vec::new();
    let mut keys: Vec<i128> = Vec::new();
    let mut i: usize = 0;
    proof {
        assert(c.names@.len() == texts(c.names@).len());
        assert(agg_models(aggs@) =~= aggs_of(ms).take(0));
        assert(keys@ =~= blame_keys(aggs_of(ms)).take(0));
    }
    while i < groups.len()
        invariant
            i <= groups@.len(),
            c.holds(ms),
            groups_fit(mention_durations(ms), groups_of(mention_names(ms))),
            members(groups@) == groups_of(mention_names(ms)),
            groups_ok(members(groups@), mention_names(ms), ms.len() as int),
            agg_models(aggs@) == aggs_of(ms).take(i as int),
            keys@ == blame_keys(aggs_of(ms)).take(i as int),
        decreases groups@.len() - i,
    {
        proof {
            assert(members(groups@)[i as int] == positions(groups@[i as int]@));
        }
        let a = aggregate(&c, &groups[i], Ghost(ms));
        keys.push(-(a.count as i128 * 0x1_0000_0000_0000_0000 + a.total_duration_ms as i128));
        push_agg(&mut aggs, a);
        i += 1;
        proof {
            assert(agg_models(aggs@) =~= aggs_of(ms).take(i as int));
            assert(keys@ =~= blame_keys(aggs_of(ms)).take(i as int));
        }
    }
    proof {
        assert(aggs_of(ms).take(groups@.len() as int) =~= aggs_of(ms));
        assert(keys@ =~= blame_keys(aggs_of(ms)));
    }
    let order = ascending_order(&keys);
    let n: usize = if limit < order.len() {
        limit
    } else {
        order.len()
    };
    let ghost ranked = reordered(aggs_of(ms), positions(order@));
    let mut r: Vec<CulpritAgg> = Vec::new();
    let mut k: usize = 0;
    proof {
        assert(agg_models(r@) =~= ranked.take(0));
    }
    while k < n
        invariant
            k <= n <= order@.len(),
            order@.len() == aggs@.len(),
            forall|i: int| 0 <= i < order@.len() ==> #[trigger] order@[i] < aggs@.len(),
            agg_models(aggs@) == aggs_of(ms),
            ranked == reordered(aggs_of(ms), positions(order@)),
            agg_models(r@) == ranked.take(k as int),
        decreases n - k,
    {
        let a = aggs[order[k]].copy();
        proof {
            assert(agg_models(aggs@)[order@[k as int] as int] == a@);
        }
        push_agg(&mut r, a);
        k += 1;
        proof {
            assert(agg_models(r@) =~= ranked.take(k as int));
        }
    }
    proof {
        assert(ranked.take(n as int) =~= first_of(ranked, limit as int));
    }
    r
}

/// How often a class of causes occurs, and how often all of them do.
#[derive(Debug)]
pub struct CauseTypeCount {
    pub cause_type: String,
    pub count: u64,
    pub total: u64,
}

/// What a [`CauseTypeCount`] holds.
pub struct TypeModel {
    pub cause_type: Seq<char>,
    pub count: u64,
    pub total: u64,
}

impl View for CauseTypeCount {
    type V = TypeModel;

    open spec fn view(&self) -> TypeModel {
        TypeModel { cause_type: self.cause_type@, count: self.count, total: self.total }
    }
}

/// What counts hold.
pub open spec fn type_models(v: Seq<CauseTypeCount>) -> Seq<TypeModel> {
    Seq::new(v.len(), |i: int| v[i]@)
}

/// The classes of causes.
pub open spec fn classes_of(causes: Seq<Seq<char>>) -> Seq<Seq<char>> {
    Seq::new(causes.len(), |i: int| class_of(causes[i]))
}

/// The counts of classes, in the order in which they first occur.
pub open spec fn class_counts(causes: Seq<Seq<char>>) -> Seq<TypeModel> {
    let classes = classes_of(causes);
    let groups = groups_of(classes);
    Seq::new(
        groups.len(),
        |i: int|
            TypeModel { cause_type: classes[groups[i][0]], count: groups[i].len() as u64, total: causes.len() as u64 },
    )
}

/// The keys of a ranking of classes: the most frequent first.
pub open spec fn class_keys(counts: Seq<TypeModel>) -> Seq<i128> {
    Seq::new(counts.len(), |i: int| (-(counts[i].count as int)) as i128)
}

/// The counts of classes, the most frequent first.
pub open spec fn class_ranking(causes: Seq<Seq<char>>) -> Seq<TypeModel> {
    reordered(class_counts(causes), ascending(class_keys(class_counts(causes))))
}

/// The causes of the first `n` events, each a JSON list; what is no such list has none.
pub open spec fn causes_upto(rows: Seq<Seq<char>>, n: int) -> Seq<Seq<char>>
    decreases n,
{
    if n <= 0 {
        seq![]
    } else {
        causes_upto(rows, n - 1) + listed(rows[n - 1])
    }
}

fn push_type(v: &mut Vec<CauseTypeCount>, a: CauseTypeCount)
    ensures
        type_models(final(v)@) == type_models(old(v)@).push(a@),
        final(v)@.len() == old(v)@.len() + 1,
{
    v.push(a);
    proof {
        assert(type_models(v@) =~= type_models(old(v)@).push(a@));
    }
}

/// The counts of the classes of causes, the most frequent first.
pub fn count_cause_types(causes: &Vec<String>) -> (r: Vec<CauseTypeCount>)
    ensures
        type_models(r@) == class_ranking(texts(causes@)),
{
    let ghost cs = texts(causes@);
    let mut classes: Vec<String> = Vec::new();
    let mut i: usize = 0;
    proof {
        assert(texts(classes@) =~= classes_of(cs).take(0));
    }
    while i < causes.len()
        invariant
            i <= causes@.len(),
            cs == texts(causes@),
            texts(classes@) == classes_of(cs).take(i as int),
        decreases causes@.len() - i,
    {
        push_text(&mut classes, String::from_str(classify_cause(causes[i].as_str())));
        i += 1;
        proof {
            assert(texts(classes@) =~= classes_of(cs).take(i as int));
        }
    }
    proof {
        assert(texts(classes@) =~= classes_of(cs));
        assert(classes@.len() == texts(classes@).len());
    }
    let groups = group_texts(&classes);
    let ghost all = class_counts(cs);
    let mut counts: Vec<CauseTypeCount> = Vec::new();
    let mut keys: Vec<i128> = Vec::new();
    let mut k: usize = 0;
    proof {
        assert(type_models(counts@) =~= all.take(0));
        assert(keys@ =~= class_keys(all).take(0));
    }
    while k < groups.len()
        invariant
            k <= groups@.len(),
            all == class_counts(cs),
            cs.len() == causes@.len(),
            classes@.len() == cs.len(),
            texts(classes@) == classes_of(cs),
            members(groups@) == groups_of(classes_of(cs)),
            groups_ok(members(groups@), classes_of(cs), cs.len() as int),
            type_models(counts@) == all.take(k as int),
            keys@ == class_keys(all).take(k as int),
        decreases groups@.len() - k,
    {
        proof {
            let g = members(groups@)[k as int];
            assert(g == positions(groups@[k as int]@));
            assert(group_ok(g, classes_of(cs), cs.len() as int));
            assert(g[0] == groups@[k as int]@[0]);
            assert(texts(classes@)[g[0]] == classes@[g[0]]@);
        }
        let count: u64 = groups[k].len() as u64;
        keys.push(-(count as i128));
        push_type(
            &mut counts,
            CauseTypeCount { cause_type: classes[groups[k][0]].clone(), count, total: causes.len() as u64 },
        );
        k += 1;
        proof {
            assert(type_models(counts@) =~= all.take(k as int));
            assert(keys@ =~= class_keys(all).take(k as int));
        }
    }
    proof {
        assert(all.take(groups@.len() as int) =~= all);
        assert(keys@ =~= class_keys(all));
    }
    let order = ascending_order(&keys);
    let ghost ranked = reordered(all, positions(order@));
    let mut r: Vec<CauseTypeCount> = Vec::new();
    let mut j: usize = 0;
    proof {
        assert(type_models(r@) =~= ranked.take(0));
    }
    while j < order.len()
        invariant
            j <= order@.len(),
            order@.len() == counts@.len(),
            forall|i: int| 0 <= i < order@.len() ==> #[trigger] order@[i] < counts@.len(),
            type_models(counts@) == all,
            ranked == reordered(all, positions(order@)),
            type_models(r@) == ranked.take(j as int),
        decreases order@.len() - j,
    {
        let c = &counts[order[j]];
        proof {
            assert(type_models(counts@)[order@[j as int] as int] == c@);
        }
        push_type(
            &mut r,
            CauseTypeCount { cause_type: c.cause_type.clone(), count: c.count, total: c.total },
        );
        j += 1;
        proof {
            assert(type_models(r@) =~= ranked.take(j as int));
        }
    }
    proof {
        assert(ranked.take(order@.len() as int) =~= ranked);
    }
    r
}

/// The counts of the classes of causes over events whose causes are stored as JSON lists.
pub fn load_cause_types(rows: &Vec<String>) -> (r: Vec<CauseTypeCount>)
    ensures
        type_models(r@) == class_ranking(causes_upto(texts(rows@), rows@.len() as int)),
{
    let ghost ts = texts(rows@);
    let mut causes: Vec<String> = Vec::new();
    let mut i: usize = 0;
    proof {
        assert(texts(causes@) =~= seq![]);
    }
    while i < rows.len()
        invariant
            i <= rows@.len(),
            ts == texts(rows@),
            texts(causes@) == causes_upto(ts, i as int),
        decreases rows@.len() - i,
    {
        let list = list_of(rows[i].as_str());
        let ghost before = texts(causes@);
        let mut k: usize = 0;
        proof {
            assert(before + texts(list@).take(0) =~= before);
        }
        while k < list.len()
            invariant
                k <= list@.len(),
                texts(causes@) == before + texts(list@).take(k as int),
            decreases list@.len() - k,
        {
            push_text(&mut causes, list[k].clone());
            k += 1;
            proof {
                assert(texts(causes@) =~= before + texts(list@).take(k as int));
            }
        }
        proof {
            assert(texts(list@).take(list@.len() as int) =~= texts(list@));
        }
        i += 1;
    }
    count_cause_types(&causes)
}

/// Into which pieces of time events are counted.
#[derive(Clone, Copy, Debug, PartialEq, Eq, Structural)]
pub enum TrendBucket {
    Hour,
    QuarterHour,
    Day,
}

impl TrendBucket {
    /// The piece with a shown name; every other name is the hour.
    pub fn from(s: &str) -> (r: TrendBucket)
        ensures
            r == (if s@ == "15 分钟"@ {
                TrendBucket::QuarterHour
            } else if s@ == "天"@ {
                TrendBucket::Day
            } else {
                TrendBucket::Hour
            }),
    {
        if same_text(s, "15 分钟") {
            TrendBucket::QuarterHour
        } else if same_text(s, "天") {
            TrendBucket::Day
        } else {
            TrendBucket::Hour
        }
    }
}

/// The events of one piece of time.
#[derive(Debug)]
pub struct TrendPoint {
    /// The local time at which the piece begins, such as `2026-08-16 09:00`.
    pub bucket: String,
    pub count: u32,
    pub total_ms: u64,
    pub critical: u32,
    pub major: u32,
    pub minor: u32,
}

/// The summary of a range.
#[derive(Debug)]
pub struct KpiSummary {
    pub today_count: u32,
    pub worst_duration_ms: u64,
    /// The hour with most events, or a dash.
    pub peak_hour: String,
    /// The process that was a culprit most often, or a dash.
    pub top_culprit: String,
}

/// The position of the first space from `i` on; the length where there is none.
pub open spec fn space_from(s: Seq<char>, i: int) -> int
    decreases s.len() - i,
{
    if i >= s.len() {
        s.len() as int
    } else if s[i] == ' ' {
        i
    } else {
        space_from(s, i + 1)
    }
}

/// The second of the words that single spaces separate.
pub open spec fn second_word(s: Seq<char>) -> Option<Seq<char>> {
    let a = space_from(s, 0);
    if a >= s.len() {
        None
    } else {
        Some(s.subrange(a + 1, space_from(s, a + 1)))
    }
}

/// The index of the last of the fullest among the first `n` points.
pub open spec fn fullest(points: Seq<TrendPoint>, n: int) -> int
    decreases n,
{
    if n <= 1 {
        0
    } else {
        let before = fullest(points, n - 1);
        if points[n - 1].count >= points[before].count {
            n - 1
        } else {
            before
        }
    }
}

/// The hour with most events, the last of them where several have as many, or a dash.
pub open spec fn peak_hour_of(points: Seq<TrendPoint>) -> Seq<char> {
    if points.len() == 0 {
        "—"@
    } else {
        match second_word(points[fullest(points, points.len() as int)].bucket@) {
            Some(h) => h,
            None => "—"@,
        }
    }
}

/// The process that leads a ranking, or a dash.
pub open spec fn leader(ranking: Seq<AggModel>) -> Seq<char> {
    if ranking.len() == 0 {
        "—"@
    } else {
        ranking[0].name
    }
}

fn find_space(v: &Vec<char>, from: usize) -> (i: usize)
    requires
        from <= v@.len(),
    ensures
        i <= v@.len(),
        from <= i,
        i == space_from(v@, from as int),
{
    let mut i: usize = from;
    while i < v.len() && v[i] != ' '
        invariant
            from <= i <= v@.len(),
            space_from(v@, i as int) == space_from(v@, from as int),
        decreases v@.len() - i,
    {
        i += 1;
    }
    i
}

/// The second of the words that single spaces separate.
pub fn word_after_space(s: &str) -> (r: Option<String>)
    ensures
        match r {
            Some(w) => second_word(s@) == Some(w@),
            None => second_word(s@) is None,
        },
{
    let v = chars_of(s);
    let a = find_space(&v, 0);
    if a >= v.len() {
        return None;
    }
    let b = find_space(&v, a + 1);
    Some(String::from_str(s.substring_char(a + 1, b)))
}

/// The hour with most events, or a dash.
pub fn peak_hour(trend: &Vec<TrendPoint>) -> (h: String)
    ensures
        h@ == peak_hour_of(trend@),
{
    if trend.len() == 0 {
        return String::from_str("—");
    }
    let mut best: usize = 0;
    let mut i: usize = 1;
    while i < trend.len()
        invariant
            1 <= i <= trend@.len(),
            best < i,
            best == fullest(trend@, i as int),
        decreases trend@.len() - i,
    {
        if trend[i].count >= trend[best].count {
            best = i;
        }
        i += 1;
    }
    match word_after_space(trend[best].bucket.as_str()) {
        Some(h) => h,
        None => String::from_str("—"),
    }
}

/// The summary of a range: how many events it has, the longest of them, its busiest hour, and the
/// process that was a culprit most often.
pub fn load_kpi(count: u32, worst_duration_ms: u64, trend: &Vec<TrendPoint>, rows: &Vec<CulpritRow>) -> (k: KpiSummary)
    requires
        countable(row_models(rows@)),
    ensures
        k.today_count == count,
        k.worst_duration_ms == worst_duration_ms,
        k.peak_hour@ == peak_hour_of(trend@),
        k.top_culprit@ == leader(culprit_ranking(row_models(rows@), 1)),
{
    let top = load_culprits(rows, 1);
    proof {
        assert(top@.len() == agg_models(top@).len());
    }
    let top_culprit = if top.len() > 0 {
        proof {
            assert(agg_models(top@)[0] == top@[0]@);
        }
        top[0].name.clone()
    } else {
        String::from_str("—")
    };
    KpiSummary { today_count: count, worst_duration_ms, peak_hour: peak_hour(trend), top_culprit }
}

/// The longest duration among the first `n` events, at least one millisecond.
pub open spec fn longest_upto(events: Seq<EventModel>, n: int) -> u64
    decreases n,
{
    if n <= 0 {
        1
    } else {
        let before = longest_upto(events, n - 1);
        if before >= events[n - 1].duration_ms {
            before
        } else {
            events[n - 1].duration_ms
        }
    }
}

/// The longest duration of events, at least one millisecond.
pub fn longest_duration(events: &Vec<StutterEvent>) -> (d: u64)
    ensures
        d == longest_upto(event_models(events@), events@.len() as int),
{
    let ghost es = event_models(events@);
    let mut d: u64 = 1;
    let mut i: usize = 0;
    while i < events.len()
        invariant
            i <= events@.len(),
            es == event_models(events@),
            d == longest_upto(es, i as int),
        decreases events@.len() - i,
    {
        proof {
            assert(es[i as int] == events@[i as int]@);
        }
        if events[i].duration_ms > d {
            d = events[i].duration_ms;
        }
        i += 1;
    }
    d
}

/// The mentions of one process: the events it was a culprit of, and what it used there.
#[derive(Debug)]
pub struct CulpritGroup {
    pub name: String,
    pub count: u32,
    pub total_duration_ms: u64,
    pub events: Vec<usize>,
    pub cpus: Vec<Level>,
    pub mems: Vec<u64>,
}

/// What a [`CulpritGroup`] holds.
pub struct GroupModel {
    pub name: Seq<char>,
    pub count: u32,
    pub total_duration_ms: u64,
    pub events: Seq<int>,
    pub cpus: Seq<Level>,
    pub mems: Seq<u64>,
}

impl View for CulpritGroup {
    type V = GroupModel;

    open spec fn view(&self) -> GroupModel {
        GroupModel {
            name: self.name@,
            count: self.count,
            total_duration_ms: self.total_duration_ms,
            events: positions(self.events@),
            cpus: self.cpus@,
            mems: self.mems@,
        }
    }
}

/// What groups hold.
pub open spec fn group_models(v: Seq<CulpritGroup>) -> Seq<GroupModel> {
    Seq::new(v.len(), |i: int| v[i]@)
}

/// The mentions in one group.
pub open spec fn group_model(ms: Seq<Mention>, g: Seq<int>) -> GroupModel {
    GroupModel {
        name: ms[g[0]].process.name,
        count: g.len() as u32,
        total_duration_ms: group_sum(mention_durations(ms), g) as u64,
        events: Seq::new(g.len(), |i: int| ms[g[i]].row),
        cpus: Seq::new(g.len(), |i: int| ms[g[i]].process.cpu_usage),
        mems: Seq::new(g.len(), |i: int| ms[g[i]].process.mem_used_mb),
    }
}

/// The mentions of each process, in the order in which they are first named.
pub open spec fn mention_groups(ms: Seq<Mention>) -> Seq<GroupModel> {
    let groups = groups_of(mention_names(ms));
    Seq::new(groups.len(), |i: int| group_model(ms, groups[i]))
}

fn rows_from(events: &Vec<StutterEvent>) -> (rows: Vec<CulpritRow>)
    ensures
        row_models(rows@) == rows_of(event_models(events@)),
{
    let ghost all = rows_of(event_models(events@));
    let mut rows: Vec<CulpritRow> = Vec::new();
    let mut i: usize = 0;
    proof {
        assert(row_models(rows@) =~= all.take(0));
    }
    while i < events.len()
        invariant
            i <= events@.len(),
            all == rows_of(event_models(events@)),
            row_models(rows@) == all.take(i as int),
        decreases events@.len() - i,
    {
        let ghost before = rows@;
        let row = CulpritRow { culprits: copy_briefs(&events[i].culprits), duration_ms: events[i].duration_ms };
        let ghost m = row@;
        rows.push(row);
        proof {
            assert(event_models(events@)[i as int] == events@[i as int]@);
            assert(row_models(rows@) =~= row_models(before).push(m));
        }
        i += 1;
        proof {
            assert(row_models(rows@) =~= all.take(i as int));
        }
    }
    proof {
        assert(all.take(all.len() as int) =~= all);
    }
    rows
}

fn collect_group(c: &Columns, g: &Vec<usize>, Ghost(ms): Ghost<Seq<Mention>>) -> (r: CulpritGroup)
    requires
        c.holds(ms),
        group_ok(positions(g@), mention_names(ms), ms.len() as int),
        group_fits(mention_durations(ms), positions(g@)),
    ensures
        r@ == group_model(ms, positions(g@)),
{
    let ghost p = positions(g@);
    let ghost names = mention_names(ms);
    let ghost want = group_model(ms, p);
    proof {
        assert forall|i: int| 0 <= i < g@.len() implies #[trigger] g@[i] < ms.len() by {
            assert(p[i] == g@[i]);
        }
    }
    let total = sum_group(&c.durations, g);
    let mut events: Vec<usize> = Vec::new();
    let mut cpus: Vec<Level> = Vec::new();
    let mut mems: Vec<u64> = Vec::new();
    let mut i: usize = 0;
    proof {
        assert(positions(events@) =~= want.events.take(0));
        assert(c.rows@.len() == positions(c.rows@).len());
    }
    while i < g.len()
        invariant
            i <= g@.len(),
            p == positions(g@),
            names == mention_names(ms),
            want == group_model(ms, p),
            c.holds(ms),
            c.rows@.len() == ms.len(),
            group_ok(p, names, ms.len() as int),
            positions(events@) == want.events.take(i as int),
            cpus@ == want.cpus.take(i as int),
            mems@ == want.mems.take(i as int),
        decreases g@.len() - i,
    {
        let ghost before = events@;
        let at = g[i];
        proof {
            assert(p[i as int] == at);
            assert(positions(c.rows@)[at as int] == ms[at as int].row);
        }
        events.push(c.rows[at]);
        cpus.push(c.cpus[at]);
        mems.push(c.mems[at]);
        proof {
            assert(positions(events@) =~= positions(before).push(ms[at as int].row));
            assert(positions(events@) =~= want.events.take(i + 1));
            assert(cpus@ =~= want.cpus.take(i + 1));
            assert(mems@ =~= want.mems.take(i + 1));
        }
        i += 1;
    }
    proof {
        assert(p[0] == g@[0]);
        assert(texts(c.names@).len() == c.names@.len());
        assert(texts(c.names@)[p[0]] == names[p[0]]);
        assert(positions(events@) =~= want.events);
        assert(cpus@ =~= want.cpus);
        assert(mems@ =~= want.mems);
    }
    CulpritGroup {
        name: c.names[g[0]].clone(),
        count: g.len() as u32,
        total_duration_ms: total,
        events,
        cpus,
        mems,
    }
}

/// The mentions of each process among the culprits of events, in the order in which they are
/// first named.
pub fn culprit_groups(events: &Vec<StutterEvent>) -> (r: Vec<CulpritGroup>)
    requires
        countable(rows_of(event_models(events@))),
    ensures
        group_models(r@) == mention_groups(mentions(rows_of(event_models(events@)))),
{
    let rows = rows_from(events);
    let ghost ms = mentions(row_models(rows@));
    let c = flatten(&rows);
    let groups = group_texts(&c.names);
    let ghost all = mention_groups(ms);
    let mut r: Vec<CulpritGroup> = Vec::new();
    let mut i: usize = 0;
    proof {
        assert(c.names@.len() == texts(c.names@).len());
        assert(group_models(r@) =~= all.take(0));
    }
    while i < groups.len()
        invariant
            i <= groups@.len(),
            c.holds(ms),
            all == mention_groups(ms),
            groups_fit(mention_durations(ms), groups_of(mention_names(ms))),
            members(groups@) == groups_of(mention_names(ms)),
            groups_ok(members(groups@), mention_names(ms), ms.len() as int),
            group_models(r@) == all.take(i as int),
        decreases groups@.len() - i,
    {
        let ghost before = r@;
        proof {
            assert(members(groups@)[i as int] == positions(groups@[i as int]@));
        }
        let g = collect_group(&c, &groups[i], Ghost(ms));
        let ghost m = g@;
        r.push(g);
        proof {
            assert(group_models(r@) =~= group_models(before).push(m));
        }
        i += 1;
        proof {
            assert(group_models(r@) =~= all.take(i as int));
        }
    }
    proof {
        assert(all.take(groups@.len() as int) =~= all);
    }
    r
}

/// A process and the weight of its blame.
#[derive(Debug)]
pub struct WeightedCulprit {
    pub name: String,
    pub weight: Level,
    pub count: u32,
    pub total_duration_ms: u64,
}

/// What a [`WeightedCulprit`] holds.
pub struct WeightedModel {
    pub name: Seq<char>,
    pub weight: Level,
    pub count: u32,
    pub total_duration_ms: u64,
}

impl View for WeightedCulprit {
    type V = WeightedModel;

    open spec fn view(&self) -> WeightedModel {
        WeightedModel {
            name: self.name@,
            weight: self.weight,
            count: self.count,
            total_duration_ms: self.total_duration_ms,
        }
    }
}

/// What weighted culprits hold.
pub open spec fn weighted_models(v: Seq<WeightedCulprit>) -> Seq<WeightedModel> {
    Seq::new(v.len(), |i: int| v[i]@)
}

/// Groups with their weights.
pub open spec fn weighted(groups: Seq<GroupModel>, weights: Seq<Level>) -> Seq<WeightedModel> {
    Seq::new(
        groups.len(),
        |i: int|
            WeightedModel {
                name: groups[i].name,
                weight: weights[i],
                count: groups[i].count,
                total_duration_ms: groups[i].total_duration_ms,
            },
    )
}

/// The keys of a ranking by weight: the heaviest first.
pub open spec fn weight_keys(v: Seq<WeightedModel>) -> Seq<i128> {
    Seq::new(v.len(), |i: int| (-sort_key(v[i].weight)) as i128)
}

/// The `limit` heaviest of weighted culprits.
pub open spec fn weight_ranking(all: Seq<WeightedModel>, limit: int) -> Seq<WeightedModel> {
    first_of(reordered(all, ascending(weight_keys(all))), limit)
}

/// The `limit` processes with the heaviest blame. `weights` holds the weight of each group of
/// [`culprit_groups`].
pub fn weighted_culprits(groups: &Vec<CulpritGroup>, weights: &Vec<Level>, limit: usize) -> (r: Vec<WeightedCulprit>)
    requires
        weights@.len() == groups@.len(),
    ensures
        weighted_models(r@) == weight_ranking(weighted(group_models(groups@), weights@), limit as int),
{
    let ghost all = weighted(group_models(groups@), weights@);
    let mut keys: Vec<i128> = Vec::new();
    let mut i: usize = 0;
    while i < groups.len()
        invariant
            i <= groups@.len(),
            weights@.len() == groups@.len(),
            all == weighted(group_models(groups@), weights@),
            keys@ == weight_keys(all).take(i as int),
        decreases groups@.len() - i,
    {
        keys.push(-weights[i].key());
        i += 1;
        proof {
            assert(keys@ =~= weight_keys(all).take(i as int));
        }
    }
    proof {
        assert(keys@ =~= weight_keys(all));
    }
    let order = ascending_order(&keys);
    let n: usize = if limit < order.len() {
        limit
    } else {
        order.len()
    };
    let ghost ranked = reordered(all, positions(order@));
    let mut r: Vec<WeightedCulprit> = Vec::new();
    let mut k: usize = 0;
    proof {
        assert(weighted_models(r@) =~= ranked.take(0));
    }
    while k < n
        invariant
            k <= n <= order@.len(),
            order@.len() == groups@.len(),
            weights@.len() == groups@.len(),
            forall|i: int| 0 <= i < order@.len() ==> #[trigger] order@[i] < groups@.len(),
            all == weighted(group_models(groups@), weights@),
            ranked == reordered(all, positions(order@)),
            weighted_models(r@) == ranked.take(k as int),
        decreases n - k,
    {
        let at = order[k];
        let g = &groups[at];
        let ghost before = r@;
        let w = WeightedCulprit {
            name: g.name.clone(),
            weight: weights[at],
            count: g.count,
            total_duration_ms: g.total_duration_ms,
        };
        let ghost m = w@;
        r.push(w);
        proof {
            assert(group_models(groups@)[at as int] == g@);
            assert(weighted_models(r@) =~= weighted_models(before).push(m));
        }
        k += 1;
        proof {
            assert(weighted_models(r@) =~= ranked.take(k as int));
        }
    }
    proof {
        assert(ranked.take(n as int) =~= first_of(ranked, limit as int));
    }
    r
}

/// The counts of classes add up to the number of causes, of which each is a share.
pub proof fn lemma_class_counts_add_up(causes: Seq<Seq<char>>)
    ensures
        total_members(groups_of(classes_of(causes)), groups_of(classes_of(causes)).len() as int) == causes.len(),
        class_counts(causes).len() == groups_of(classes_of(causes)).len(),
{
    lemma_sizes_add_up(classes_of(causes), causes.len() as int);
}

/// A ranking of culprits never rises: a later process was a culprit no more often, and where as
/// often, for no longer; it holds at most `limit`.
pub proof fn lemma_culprit_ranking_falls(rows: Seq<RowModel>, limit: int, i: int, j: int)
    requires
        limit >= 0,
        0 <= i < j < culprit_ranking(rows, limit).len(),
    ensures
        culprit_ranking(rows, limit).len() <= limit,
        ({
            let a = culprit_ranking(rows, limit)[i];
            let b = culprit_ranking(rows, limit)[j];
            a.count > b.count || a.count == b.count && a.total_duration_ms >= b.total_duration_ms
        }),
{
    let aggs = aggs_of(mentions(rows));
    let keys = blame_keys(aggs);
    lemma_ascending(keys);
    let order = ascending(keys);
    let x = order[i];
    let y = order[j];
    assert(keys[x] <= keys[y]);
}

/// No process has two places in a ranking of culprits.
pub proof fn lemma_culprits_are_distinct(ms: Seq<Mention>, i: int, j: int)
    requires
        0 <= i < j < aggs_of(ms).len(),
    ensures
        aggs_of(ms)[i].name != aggs_of(ms)[j].name,
{
    let names = mention_names(ms);
    lemma_groups_upto(names, names.len() as int);
    let groups = groups_of(names);
    assert(group_ok(groups[i], names, names.len() as int));
    assert(group_ok(groups[j], names, names.len() as int));
}

/// A ranking of classes never rises: a later class is no more frequent.
pub proof fn lemma_class_ranking_falls(causes: Seq<Seq<char>>, i: int, j: int)
    requires
        0 <= i < j < class_ranking(causes).len(),
    ensures
        class_ranking(causes)[i].count >= class_ranking(causes)[j].count,
{
    let keys = class_keys(class_counts(causes));
    lemma_ascending(keys);
    let x = ascending(keys)[i];
    let y = ascending(keys)[j];
    assert(keys[x] <= keys[y]);
}

/// A ranking by weight never rises: a later culprit weighs no more; it holds at most `limit`.
pub proof fn lemma_weight_ranking_falls(all: Seq<WeightedModel>, limit: int, i: int, j: int)
    requires
        limit >= 0,
        0 <= i < j < weight_ranking(all, limit).len(),
    ensures
        weight_ranking(all, limit).len() <= limit,
        sort_key(weight_ranking(all, limit)[i].weight) >= sort_key(weight_ranking(all, limit)[j].weight),
{
    let keys = weight_keys(all);
    lemma_ascending(keys);
    let x = ascending(keys)[i];
    let y = ascending(keys)[j];
    assert(keys[x] <= keys[y]);
}

} // verus!
