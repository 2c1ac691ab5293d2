//! What grouping, ordering and counting come to.

use crate::grouping::{group_sum, group_with, groups_upto, lemma_groups_upto, lemma_group_with, sum_members};
use crate::order::{ascending, lemma_ascending, lemma_position, reordered};
use crate::text::{decimal, digit_char, joined, occurs, occurs_at};
use crate::text_order::{lemma_sorted_texts, sorted_texts, text_keys, text_less, without_runs};
use vstd::prelude::*;

verus! {

/// How many of the first `n` keys are `k`.
pub open spec fn times<K>(keys: Seq<K>, k: K, n: int) -> int
    decreases n,
{
    if n <= 0 {
        0
    } else {
        times(keys, k, n - 1) + if keys[n - 1] == k {
            1int
        } else {
            0
        }
    }
}

/// The sum of the values of those of the first `n` keys that are `k`.
pub open spec fn amount<K>(keys: Seq<K>, values: Seq<u64>, k: K, n: int) -> int
    decreases n,
{
    if n <= 0 {
        0
    } else {
        amount(keys, values, k, n - 1) + if keys[n - 1] == k {
            values[n - 1] as int
        } else {
            0
        }
    }
}

/// Every key has one group, as large as often as the key occurs, with the sum of its values, and the
/// groups come in the order in which their keys first occur.
pub proof fn lemma_groups_count<K>(keys: Seq<K>, values: Seq<u64>, n: int)
    requires
        0 <= n <= keys.len(),
    ensures
        forall|i: int|
            0 <= i < groups_upto(keys, n).len() ==> {
                let g = #[trigger] groups_upto(keys, n)[i];
                &&& g.len() == times(keys, keys[g[0]], n)
                &&& group_sum(values, g) == amount(keys, values, keys[g[0]], n)
            },
        forall|i: int, j: int|
            0 <= i < j < groups_upto(keys, n).len() ==> (#[trigger] groups_upto(keys, n)[i])[0] < (#[trigger] groups_upto(
                keys,
                n,
            )[j])[0],
        forall|k: K|
            (forall|i: int| 0 <= i < groups_upto(keys, n).len() ==> keys[(#[trigger] groups_upto(keys, n)[i])[0]] != k)
                ==> #[trigger] times(keys, k, n) == 0 && amount(keys, values, k, n) == 0,
    decreases n,
{
    if n > 0 {
        lemma_groups_count(keys, values, n - 1);
        lemma_groups_upto(keys, n - 1);
        lemma_groups_upto(keys, n);
        let before = groups_upto(keys, n - 1);
        let after = groups_upto(keys, n);
        let k = keys[n - 1];
        let at = group_with(before, keys, k, 0);
        lemma_group_with(before, keys, k, 0);
        assert forall|i: int| 0 <= i < after.len() implies {
            let g = #[trigger] after[i];
            &&& g.len() == times(keys, keys[g[0]], n)
            &&& group_sum(values, g) == amount(keys, values, keys[g[0]], n)
        } by {
            let g = after[i];
            if i < before.len() {
                let old_g = before[i];
                assert(old_g.len() >= 1);
                assert(g[0] == old_g[0]);
                if i == at {
                    assert(g == old_g.push(n - 1));
                    lemma_sum_kept(values, old_g, g, old_g.len() as int);
                } else {
                    assert(keys[g[0]] != k) by {
                        if at < before.len() {
                            if i < at {
                                assert(keys[before[i][0]] != keys[before[at][0]]);
                            } else {
                                assert(keys[before[at][0]] != keys[before[i][0]]);
                            }
                        }
                    }
                }
            } else {
                assert(g =~= seq![n - 1]);
                assert(times(keys, k, n - 1) == 0);
                reveal_with_fuel(sum_members, 2);
            }
        }
        assert forall|i: int, j: int| 0 <= i < j < after.len() implies (#[trigger] after[i])[0] < (#[trigger] after[j])[0] by {
            assert(after[i][0] == before[i][0]);
            if j < before.len() {
                assert(after[j][0] == before[j][0]);
            } else {
                assert(before[i].len() >= 1 && before[i][0] < n - 1);
            }
        }
        assert forall|q: K| (forall|i: int| 0 <= i < after.len() ==> keys[(#[trigger] after[i])[0]] != q) implies #[trigger] times(
            keys,
            q,
            n,
        ) == 0 && amount(keys, values, q, n) == 0 by {
            assert(after[at].len() >= 1);
            assert(keys[after[at][0]] == k);
            assert(q != k);
            assert forall|i: int| 0 <= i < before.len() implies keys[(#[trigger] before[i])[0]] != q by {
                assert(after[i][0] == before[i][0]);
            }
            assert(times(keys, q, n - 1) == 0);
        }
    }
}

proof fn lemma_sum_kept(values: Seq<u64>, a: Seq<int>, b: Seq<int>, n: int)
    requires
        0 <= n <= a.len() <= b.len(),
        forall|i: int| 0 <= i < n ==> a[i] == b[i],
    ensures
        sum_members(values, a, n) == sum_members(values, b, n),
    decreases n,
{
    if n > 0 {
        lemma_sum_kept(values, a, b, n - 1);
    }
}

/// Putting items in order by keys loses none and invents none.
pub proof fn lemma_reordered_keeps<T>(s: Seq<T>, keys: Seq<i128>)
    requires
        keys.len() == s.len(),
    ensures
        reordered(s, ascending(keys)).len() == s.len(),
        forall|x: T| #[trigger] reordered(s, ascending(keys)).contains(x) <==> s.contains(x),
{
    let order = ascending(keys);
    let r = reordered(s, order);
    lemma_ascending(keys);
    assert forall|x: T| #[trigger] r.contains(x) <==> s.contains(x) by {
        if r.contains(x) {
            let i = choose|i: int| 0 <= i < r.len() && r[i] == x;
            assert(s[order[i]] == x);
        }
        if s.contains(x) {
            let i = choose|i: int| 0 <= i < s.len() && s[i] == x;
            let at = lemma_position(order, s.len() as int, i);
            assert(r[at] == x);
        }
    }
}

/// The number that decimal digits stand for.
pub open spec fn read_digits(s: Seq<char>) -> int
    decreases s.len(),
{
    if s.len() == 0 {
        0
    } else {
        10 * read_digits(s.drop_last()) + (s.last() as u32 - '0' as u32)
    }
}

/// A number is written in decimal digits that stand for it, without a zero in front.
pub proof fn lemma_digits_stand_for_numbers(n: nat)
    ensures
        read_digits(decimal(n)) == n,
        decimal(n).len() >= 1,
        forall|i: int| 0 <= i < decimal(n).len() ==> '0' as u32 <= (#[trigger] decimal(n)[i]) as u32 <= '9' as u32,
        n > 0 ==> decimal(n)[0] != '0',
    decreases n,
{
    reveal_with_fuel(read_digits, 2);
    if n < 10 {
        assert(decimal(n).drop_last() =~= seq![]);
    } else {
        let front = decimal(n / 10);
        let c = digit_char(n % 10);
        lemma_digits_stand_for_numbers(n / 10);
        assert(decimal(n) == front.push(c));
        assert(decimal(n).drop_last() =~= front);
        assert(c as u32 - '0' as u32 == n % 10);
        assert(decimal(n)[0] == front[0]);
    }
}

/// A part occurs in a text exactly where the text is something, the part, and something.
pub proof fn lemma_parts_occur(part: Seq<char>, s: Seq<char>, front: Seq<char>, back: Seq<char>)
    ensures
        s == front + part + back ==> occurs(part, s),
        occurs(part, s) ==> exists|a: Seq<char>, b: Seq<char>| s == #[trigger] (a + part + b),
{
    if s == front + part + back {
        assert(s.subrange(front.len() as int, (front.len() + part.len()) as int) =~= part);
        assert(occurs_at(part, s, front.len() as int));
    }
    if occurs(part, s) {
        let i = choose|i: int| occurs_at(part, s, i);
        let a = s.take(i);
        let b = s.skip(i + part.len());
        assert(s =~= a + part + b);
    }
}

/// Texts are ordered by the first place where they differ, and a text comes before its continuations.
pub proof fn lemma_first_difference_decides(same: Seq<char>, a: char, b: char, x: Seq<char>, y: Seq<char>)
    ensures
        a != b ==> (text_less(same + seq![a] + x, same + seq![b] + y) <==> (a as u32) < (b as u32)),
        x.len() > 0 ==> text_less(same, same + x),
    decreases same.len(),
{
    let l = same + seq![a] + x;
    let r = same + seq![b] + y;
    let longer = same + x;
    if same.len() == 0 {
        assert(l[0] == a && r[0] == b);
    } else {
        lemma_first_difference_decides(same.skip(1), a, b, x, y);
        assert(l.skip(1) =~= same.skip(1) + seq![a] + x);
        assert(r.skip(1) =~= same.skip(1) + seq![b] + y);
        assert(longer.skip(1) =~= same.skip(1) + x);
        assert(l[0] == r[0] && longer[0] == same[0]);
    }
}

/// Joining texts puts the separator between each two and nothing elsewhere.
pub proof fn lemma_joining(parts: Seq<Seq<char>>, sep: Seq<char>, x: Seq<char>)
    ensures
        joined(Seq::empty(), sep) == Seq::<char>::empty(),
        joined(seq![x], sep) == x,
        parts.len() > 0 ==> joined(parts.push(x), sep) == joined(parts, sep) + sep + x,
{
    if parts.len() > 0 {
        assert(parts.push(x).drop_last() =~= parts);
    }
}

/// Dropping repetitions from texts loses none of them.
pub proof fn lemma_runs_lose_nothing(ts: Seq<Seq<char>>, t: Seq<char>)
    ensures
        without_runs(ts).contains(t) <==> ts.contains(t),
        without_runs(ts).len() <= ts.len(),
        ts.len() > 0 ==> without_runs(ts).len() > 0 && without_runs(ts).last() == ts.last(),
    decreases ts.len(),
{
    if ts.len() > 0 {
        let front = ts.drop_last();
        let before = without_runs(front);
        let after = without_runs(ts);
        lemma_runs_lose_nothing(front, t);
        assert(ts[ts.len() - 1] == ts.last());
        if before.contains(t) {
            let i = choose|i: int| 0 <= i < before.len() && before[i] == t;
            assert(after[i] == t);
            let j = choose|j: int| 0 <= j < front.len() && front[j] == t;
            assert(ts[j] == t);
        }
        if after.contains(t) && !before.contains(t) {
            let i = choose|i: int| 0 <= i < after.len() && after[i] == t;
            assert(t == ts.last());
        }
        if ts.contains(t) && !before.contains(t) {
            let j = choose|j: int| 0 <= j < ts.len() && ts[j] == t;
            if j < front.len() {
                assert(front[j] == t);
            }
            if after.len() == before.len() {
                assert(ts[ts.len() - 2] == ts.last());
                assert(front.last() == t);
                assert(before[before.len() - 1] == t);
            } else {
                assert(after[before.len() as int] == t);
            }
        }
    }
}

/// Sorted texts are the same texts in ascending order.
pub proof fn lemma_sorting_texts(ts: Seq<Seq<char>>)
    requires
        ts.len() <= u64::MAX,
    ensures
        sorted_texts(ts).len() == ts.len(),
        forall|t: Seq<char>| #[trigger] sorted_texts(ts).contains(t) <==> ts.contains(t),
        forall|i: int, j: int|
            0 <= i < j < ts.len() ==> !text_less(#[trigger] sorted_texts(ts)[j], #[trigger] sorted_texts(ts)[i]),
{
    lemma_reordered_keeps(ts, text_keys(ts));
    assert forall|i: int, j: int| 0 <= i < j < ts.len() implies !text_less(
        #[trigger] sorted_texts(ts)[j],
        #[trigger] sorted_texts(ts)[i],
    ) by {
        lemma_sorted_texts(ts, i, j);
    }
}

} // verus!
