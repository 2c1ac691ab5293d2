//! Grouping by equal keys, in the order in which keys first occur.

use crate::order::positions;
use crate::text::texts;
use vstd::prelude::*;

verus! {

/// The index of the first group whose members have key `k`, from `i` on.
pub open spec fn group_with<K>(groups: Seq<Seq<int>>, keys: Seq<K>, k: K, i: int) -> int
    decreases groups.len() - i,
{
    if i >= groups.len() || keys[groups[i][0]] == k {
        i
    } else {
        group_with(groups, keys, k, i + 1)
    }
}

/// The positions of the first `n` keys, those with equal keys together, groups and members in the
/// order in which they come.
pub open spec fn groups_upto<K>(keys: Seq<K>, n: int) -> Seq<Seq<int>>
    decreases n,
{
    if n <= 0 {
        seq![]
    } else {
        let before = groups_upto(keys, n - 1);
        let at = group_with(before, keys, keys[n - 1], 0);
        if at < before.len() {
            before.update(at, before[at].push(n - 1))
        } else {
            before.push(seq![n - 1])
        }
    }
}

/// All positions, those with equal keys together.
pub open spec fn groups_of<K>(keys: Seq<K>) -> Seq<Seq<int>> {
    groups_upto(keys, keys.len() as int)
}

/// The groups of lists of indices.
pub open spec fn members(v: Seq<Vec<usize>>) -> Seq<Seq<int>> {
    Seq::new(v.len(), |i: int| positions(v[i]@))
}

/// Members of one group ascend, lie below `n` and share their key.
pub open spec fn group_ok<K>(g: Seq<int>, keys: Seq<K>, n: int) -> bool {
    &&& 1 <= g.len()
    &&& forall|a: int| 0 <= a < g.len() ==> 0 <= #[trigger] g[a] < n && keys[g[a]] == keys[g[0]]
    &&& forall|a: int, b: int| 0 <= a < b < g.len() ==> g[a] < g[b]
}

/// Every group is in order, and no two groups share a key.
pub open spec fn groups_ok<K>(groups: Seq<Seq<int>>, keys: Seq<K>, n: int) -> bool {
    &&& forall|i: int| 0 <= i < groups.len() ==> group_ok(#[trigger] groups[i], keys, n)
    &&& forall|i: int, j: int| 0 <= i < j < groups.len() ==> keys[groups[i][0]] != keys[groups[j][0]]
}

/// Position `p` is a member of some group.
pub open spec fn is_member(groups: Seq<Seq<int>>, p: int) -> bool {
    exists|i: int| 0 <= i < groups.len() && (#[trigger] groups[i]).contains(p)
}

pub(crate) proof fn lemma_group_with<K>(groups: Seq<Seq<int>>, keys: Seq<K>, k: K, i: int)
    requires
        0 <= i <= groups.len(),
    ensures
        i <= group_with(groups, keys, k, i) <= groups.len(),
        group_with(groups, keys, k, i) < groups.len() ==> keys[groups[group_with(groups, keys, k, i)][0]] == k,
        forall|j: int| i <= j < group_with(groups, keys, k, i) ==> keys[(#[trigger] groups[j])[0]] != k,
    decreases groups.len() - i,
{
    if i < groups.len() && keys[groups[i][0]] != k {
        lemma_group_with(groups, keys, k, i + 1);
    }
}

/// Groups hold every position below `n` and nothing else, each with positions of its own key, in
/// ascending order, and no key has two groups.
pub proof fn lemma_groups_upto<K>(keys: Seq<K>, n: int)
    requires
        0 <= n <= keys.len(),
    ensures
        groups_ok(groups_upto(keys, n), keys, n),
        forall|p: int| 0 <= p < n ==> #[trigger] is_member(groups_upto(keys, n), p),
        groups_upto(keys, n).len() <= n,
    decreases n,
{
    if n > 0 {
        lemma_groups_upto(keys, n - 1);
        let before = groups_upto(keys, n - 1);
        let k = keys[n - 1];
        let at = group_with(before, keys, k, 0);
        lemma_group_with(before, keys, k, 0);
        let after = groups_upto(keys, n);
        assert forall|i: int| 0 <= i < after.len() implies group_ok(#[trigger] after[i], keys, n) by {
            if i < before.len() {
                assert(group_ok(before[i], keys, n - 1));
            }
            if i == at && at < before.len() {
                let old_g = before[at];
                let g = after[at];
                assert(g == old_g.push(n - 1));
                assert forall|a: int| 0 <= a < g.len() implies 0 <= #[trigger] g[a] < n && keys[g[a]] == keys[g[0]] by {
                    if a < old_g.len() {
                        assert(g[a] == old_g[a]);
                    }
                    assert(g[0] == old_g[0]);
                }
                assert forall|a: int, b: int| 0 <= a < b < g.len() implies g[a] < g[b] by {
                    assert(g[a] == old_g[a]);
                }
            }
        }
        assert forall|i: int, j: int| 0 <= i < j < after.len() implies keys[after[i][0]] != keys[after[j][0]] by {
            if i < before.len() {
                assert(group_ok(before[i], keys, n - 1));
                assert(after[i][0] == before[i][0]);
            }
            if j < before.len() {
                assert(group_ok(before[j], keys, n - 1));
                assert(after[j][0] == before[j][0]);
            }
        }
        assert forall|p: int| 0 <= p < n implies #[trigger] is_member(after, p) by {
            if p < n - 1 {
                assert(is_member(before, p));
                let i = choose|i: int| 0 <= i < before.len() && (#[trigger] before[i]).contains(p);
                let a = choose|a: int| 0 <= a < before[i].len() && before[i][a] == p;
                assert(after[i][a] == p);
                assert(after[i].contains(p));
            } else {
                let i = at;
                assert(after[i].last() == p);
                assert(after[i].contains(p));
            }
        }
    }
}

/// The sum of the values at the first `n` members of a group.
pub open spec fn sum_members(values: Seq<u64>, g: Seq<int>, n: int) -> int
    decreases n,
{
    if n <= 0 {
        0
    } else {
        sum_members(values, g, n - 1) + values[g[n - 1]]
    }
}

/// The sum of the values in a group.
pub open spec fn group_sum(values: Seq<u64>, g: Seq<int>) -> int {
    sum_members(values, g, g.len() as int)
}

/// Whether a group can be counted and its values summed.
pub open spec fn group_fits(values: Seq<u64>, g: Seq<int>) -> bool {
    g.len() <= u32::MAX && group_sum(values, g) <= u64::MAX
}

/// Whether each group can be counted and its values summed.
pub open spec fn groups_fit(values: Seq<u64>, groups: Seq<Seq<int>>) -> bool {
    forall|i: int| 0 <= i < groups.len() ==> group_fits(values, #[trigger] groups[i])
}

proof fn lemma_sum_grows(values: Seq<u64>, g: Seq<int>, a: int, b: int)
    requires
        a <= b,
    ensures
        sum_members(values, g, a) <= sum_members(values, g, b),
    decreases b - a,
{
    if a < b {
        lemma_sum_grows(values, g, a, b - 1);
    }
}

/// Sums a group's values.
pub(crate) fn sum_group(values: &Vec<u64>, g: &Vec<usize>) -> (total: u64)
    requires
        forall|i: int| 0 <= i < g@.len() ==> #[trigger] g@[i] < values@.len(),
        group_sum(values@, positions(g@)) <= u64::MAX,
    ensures
        total == group_sum(values@, positions(g@)),
{
    let ghost p = positions(g@);
    let mut total: u64 = 0;
    let mut i: usize = 0;
    while i < g.len()
        invariant
            i <= g@.len(),
            p == positions(g@),
            forall|i: int| 0 <= i < g@.len() ==> #[trigger] g@[i] < values@.len(),
            sum_members(values@, p, g@.len() as int) <= u64::MAX,
            total == sum_members(values@, p, i as int),
        decreases g@.len() - i,
    {
        proof {
            assert(p[i as int] == g@[i as int]);
            lemma_sum_grows(values@, p, i + 1, g@.len() as int);
        }
        total = total + values[g[i]];
        i += 1;
    }
    total
}

/// Whether two lists of keys have equal keys at the same positions.
pub open spec fn same_pattern<A, B>(a: Seq<A>, b: Seq<B>) -> bool {
    &&& a.len() == b.len()
    &&& forall|i: int, j: int|
        0 <= i < a.len() && 0 <= j < a.len() ==> (#[trigger] a[i] == #[trigger] a[j] <==> b[i] == b[j])
}

proof fn lemma_group_with_same<A, B>(groups: Seq<Seq<int>>, a: Seq<A>, b: Seq<B>, x: int, i: int)
    requires
        same_pattern(a, b),
        0 <= x < a.len(),
        0 <= i <= groups.len(),
        forall|k: int| 0 <= k < groups.len() ==> 0 <= (#[trigger] groups[k])[0] < a.len(),
    ensures
        group_with(groups, a, a[x], i) == group_with(groups, b, b[x], i),
    decreases groups.len() - i,
{
    if i < groups.len() {
        let y = groups[i][0];
        assert(a[y] == a[x] <==> b[y] == b[x]);
        lemma_group_with_same(groups, a, b, x, i + 1);
    }
}

/// Lists with equal keys at the same positions have the same groups.
pub proof fn lemma_same_groups<A, B>(a: Seq<A>, b: Seq<B>, n: int)
    requires
        same_pattern(a, b),
        0 <= n <= a.len(),
    ensures
        groups_upto(a, n) == groups_upto(b, n),
    decreases n,
{
    if n > 0 {
        lemma_same_groups(a, b, n - 1);
        lemma_groups_upto(a, n - 1);
        let before = groups_upto(a, n - 1);
        assert forall|k: int| 0 <= k < before.len() implies 0 <= (#[trigger] before[k])[0] < a.len() by {
            assert(group_ok(before[k], a, n - 1));
        }
        lemma_group_with_same(before, a, b, n - 1, 0);
    }
}

/// Whether `ids` gives each position the first position with the same key.
pub open spec fn first_positions<K>(ids: Seq<usize>, keys: Seq<K>) -> bool {
    &&& ids.len() == keys.len()
    &&& forall|i: int| 0 <= i < ids.len() ==> #[trigger] ids[i] <= i && keys[ids[i] as int] == keys[i]
    &&& forall|i: int, j: int| 0 <= j < ids[i] && 0 <= i < ids.len() ==> #[trigger] keys[j] != #[trigger] keys[i]
}

/// First positions are equal where keys are.
pub proof fn lemma_first_positions<K>(ids: Seq<usize>, keys: Seq<K>)
    requires
        first_positions(ids, keys),
    ensures
        same_pattern(keys, ids),
{
    assert forall|i: int, j: int| 0 <= i < keys.len() && 0 <= j < keys.len() implies (#[trigger] keys[i]
        == #[trigger] keys[j] <==> ids[i] == ids[j]) by {
        let x = ids[i] as int;
        let y = ids[j] as int;
        assert(keys[x] == keys[i] && keys[y] == keys[j]);
        if keys[i] == keys[j] && x < y {
            assert(keys[x] != keys[j]);
        }
        if keys[i] == keys[j] && y < x {
            assert(keys[y] != keys[i]);
        }
    }
}

/// Groups positions by equal numbers.
pub fn group_ids(ids: &Vec<usize>) -> (groups: Vec<Vec<usize>>)
    ensures
        members(groups@) == groups_of(ids@),
{
    let ghost ks = ids@;
    let mut groups: Vec<Vec<usize>> = Vec::new();
    let mut n: usize = 0;
    proof {
        assert(members(groups@) =~= groups_upto(ks, 0));
    }
    while n < ids.len()
        invariant
            n <= ids@.len(),
            ks == ids@,
            members(groups@) == groups_upto(ks, n as int),
        decreases ids@.len() - n,
    {
        proof {
            lemma_groups_upto(ks, n as int);
        }
        let mut at: usize = 0;
        let mut found = false;
        while at < groups.len() && !found
            invariant
                n < ids@.len(),
                ks == ids@,
                members(groups@) == groups_upto(ks, n as int),
                groups_ok(members(groups@), ks, n as int),
                at <= groups@.len(),
                group_with(members(groups@), ks, ks[n as int], at as int) == group_with(
                    members(groups@),
                    ks,
                    ks[n as int],
                    0,
                ),
                found ==> at < groups@.len() && ks[members(groups@)[at as int][0]] == ks[n as int],
            decreases groups@.len() - at + if found { 0int } else { 1int },
        {
            proof {
                assert(group_ok(members(groups@)[at as int], ks, n as int));
                assert(members(groups@)[at as int] == positions(groups@[at as int]@));
            }
            if ids[groups[at][0]] == ids[n] {
                found = true;
            } else {
                at += 1;
            }
        }
        let ghost before = members(groups@);
        proof {
            lemma_group_with(before, ks, ks[n as int], 0);
            assert(at == group_with(before, ks, ks[n as int], 0));
        }
        if at < groups.len() {
            let mut g: Vec<usize> = Vec::new();
            let mut i: usize = 0;
            while i < groups[at].len()
                invariant
                    at < groups@.len(),
                    i <= groups@[at as int]@.len(),
                    g@ == groups@[at as int]@.take(i as int),
                decreases groups@[at as int]@.len() - i,
            {
                g.push(groups[at][i]);
                i += 1;
                proof {
                    assert(g@ =~= groups@[at as int]@.take(i as int));
                }
            }
            g.push(n);
            proof {
                assert(positions(g@) =~= before[at as int].push(n as int));
            }
            groups.set(at, g);
            proof {
                assert(members(groups@) =~= before.update(at as int, before[at as int].push(n as int)));
            }
        } else {
            let mut g: Vec<usize> = Vec::new();
            g.push(n);
            proof {
                assert(positions(g@) =~= seq![n as int]);
            }
            groups.push(g);
            proof {
                assert(members(groups@) =~= before.push(seq![n as int]));
            }
        }
        n += 1;
    }
    groups
}

/// Groups texts by equality.
pub fn group_texts(keys: &Vec<String>) -> (groups: Vec<Vec<usize>>)
    ensures
        members(groups@) == groups_of(texts(keys@)),
        groups_ok(members(groups@), texts(keys@), keys@.len() as int),
{
    let ghost ks = texts(keys@);
    let mut ids: Vec<usize> = Vec::new();
    let mut n: usize = 0;
    while n < keys.len()
        invariant
            n <= keys@.len(),
            ks == texts(keys@),
            ids@.len() == n,
            first_positions(ids@, ks.take(n as int)),
        decreases keys@.len() - n,
    {
        let mut j: usize = 0;
        while j < n && !(keys[j] == keys[n])
            invariant
                j <= n < keys@.len(),
                ks == texts(keys@),
                forall|i: int| 0 <= i < j ==> #[trigger] ks[i] != ks[n as int],
            decreases n - j,
        {
            j += 1;
        }
        let ghost before = ids@;
        ids.push(j);
        proof {
            let part = ks.take(n + 1);
            let old_part = ks.take(n as int);
            assert(ks[j as int] == ks[n as int]);
            assert forall|i: int| 0 <= i < ids@.len() implies #[trigger] ids@[i] <= i && part[ids@[i] as int] == part[i] by {
                if i < n {
                    assert(ids@[i] == before[i]);
                    assert(old_part[before[i] as int] == old_part[i]);
                }
            }
            assert forall|i: int, k: int| 0 <= k < ids@[i] && 0 <= i < ids@.len() implies #[trigger] part[k]
                != #[trigger] part[i] by {
                if i < n {
                    assert(ids@[i] == before[i]);
                    assert(old_part[k] != old_part[i]);
                }
            }
        }
        n += 1;
    }
    proof {
        assert(ks.take(ks.len() as int) =~= ks);
        lemma_first_positions(ids@, ks);
        lemma_same_groups(ks, ids@, ks.len() as int);
        lemma_groups_upto(ks, ks.len() as int);
    }
    group_ids(&ids)
}

/// The contents of a list of pairs of strings.
pub open spec fn pair_texts(v: Seq<(String, String)>) -> Seq<(Seq<char>, Seq<char>)> {
    Seq::new(v.len(), |i: int| (v[i].0@, v[i].1@))
}

/// Groups pairs of texts by equality.
pub fn group_pairs(keys: &Vec<(String, String)>) -> (groups: Vec<Vec<usize>>)
    ensures
        members(groups@) == groups_of(pair_texts(keys@)),
        groups_ok(members(groups@), pair_texts(keys@), keys@.len() as int),
{
    let ghost ks = pair_texts(keys@);
    let mut ids: Vec<usize> = Vec::new();
    let mut n: usize = 0;
    while n < keys.len()
        invariant
            n <= keys@.len(),
            ks == pair_texts(keys@),
            ids@.len() == n,
            first_positions(ids@, ks.take(n as int)),
        decreases keys@.len() - n,
    {
        let mut j: usize = 0;
        while j < n && !(keys[j].0 == keys[n].0 && keys[j].1 == keys[n].1)
            invariant
                j <= n < keys@.len(),
                ks == pair_texts(keys@),
                forall|i: int| 0 <= i < j ==> #[trigger] ks[i] != ks[n as int],
            decreases n - j,
        {
            j += 1;
        }
        let ghost before = ids@;
        ids.push(j);
        proof {
            let part = ks.take(n + 1);
            let old_part = ks.take(n as int);
            assert(ks[j as int] == ks[n as int]);
            assert forall|i: int| 0 <= i < ids@.len() implies #[trigger] ids@[i] <= i && part[ids@[i] as int] == part[i] by {
                if i < n {
                    assert(ids@[i] == before[i]);
                    assert(old_part[before[i] as int] == old_part[i]);
                }
            }
            assert forall|i: int, k: int| 0 <= k < ids@[i] && 0 <= i < ids@.len() implies #[trigger] part[k]
                != #[trigger] part[i] by {
                if i < n {
                    assert(ids@[i] == before[i]);
                    assert(old_part[k] != old_part[i]);
                }
            }
        }
        n += 1;
    }
    proof {
        assert(ks.take(ks.len() as int) =~= ks);
        lemma_first_positions(ids@, ks);
        lemma_same_groups(ks, ids@, ks.len() as int);
        lemma_groups_upto(ks, ks.len() as int);
    }
    group_ids(&ids)
}

/// How many members the first `n` groups have together.
pub open spec fn total_members(groups: Seq<Seq<int>>, n: int) -> int
    decreases n,
{
    if n <= 0 {
        0
    } else {
        total_members(groups, n - 1) + groups[n - 1].len()
    }
}

proof fn lemma_total_of_update(groups: Seq<Seq<int>>, at: int, x: int, n: int)
    requires
        0 <= at < groups.len(),
        0 <= n <= groups.len(),
    ensures
        total_members(groups.update(at, groups[at].push(x)), n) == total_members(groups, n) + if at < n {
            1int
        } else {
            0
        },
    decreases n,
{
    if n > 0 {
        lemma_total_of_update(groups, at, x, n - 1);
    }
}

proof fn lemma_total_of_push(groups: Seq<Seq<int>>, g: Seq<int>, n: int)
    requires
        0 <= n <= groups.len(),
    ensures
        total_members(groups.push(g), n) == total_members(groups, n),
    decreases n,
{
    if n > 0 {
        lemma_total_of_push(groups, g, n - 1);
    }
}

/// Every position is counted once: the sizes of all groups add up to the number of positions.
pub proof fn lemma_sizes_add_up<K>(keys: Seq<K>, n: int)
    requires
        0 <= n <= keys.len(),
    ensures
        total_members(groups_upto(keys, n), groups_upto(keys, n).len() as int) == n,
    decreases n,
{
    if n > 0 {
        lemma_sizes_add_up(keys, n - 1);
        let before = groups_upto(keys, n - 1);
        let at = group_with(before, keys, keys[n - 1], 0);
        lemma_group_with(before, keys, keys[n - 1], 0);
        if at < before.len() {
            lemma_total_of_update(before, at, n - 1, before.len() as int);
        } else {
            lemma_total_of_push(before, seq![n - 1], before.len() as int);
        }
    }
}

} // verus!
