//! The lexicographic order of texts.

use crate::order::{ascending, ascending_order, lemma_ascending, positions, reordered};
use crate::text::{chars_of, push_text, texts};
use vstd::prelude::*;

verus! {

/// Whether `a` comes before `b`: by the first character that differs, a beginning before the whole.
pub open spec fn text_less(a: Seq<char>, b: Seq<char>) -> bool
    decreases a.len(),
{
    if b.len() == 0 {
        false
    } else if a.len() == 0 {
        true
    } else if a[0] != b[0] {
        (a[0] as u32) < (b[0] as u32)
    } else {
        text_less(a.skip(1), b.skip(1))
    }
}

/// How many of the first `n` texts come before `t`.
pub open spec fn count_before(ts: Seq<Seq<char>>, t: Seq<char>, n: int) -> int
    decreases n,
{
    if n <= 0 {
        0
    } else {
        count_before(ts, t, n - 1) + if text_less(ts[n - 1], t) {
            1int
        } else {
            0
        }
    }
}

/// Keys that order texts: how many texts come before each.
pub open spec fn text_keys(ts: Seq<Seq<char>>) -> Seq<i128> {
    Seq::new(ts.len(), |i: int| count_before(ts, ts[i], ts.len() as int) as i128)
}

/// Texts in ascending order.
pub open spec fn sorted_texts(ts: Seq<Seq<char>>) -> Seq<Seq<char>> {
    reordered(ts, ascending(text_keys(ts)))
}

/// Texts without immediate repetitions.
pub open spec fn without_runs(ts: Seq<Seq<char>>) -> Seq<Seq<char>>
    decreases ts.len(),
{
    if ts.len() == 0 {
        seq![]
    } else {
        let front = without_runs(ts.drop_last());
        if ts.len() > 1 && ts[ts.len() - 2] == ts.last() {
            front
        } else {
            front.push(ts.last())
        }
    }
}

fn chars_less(a: &Vec<char>, b: &Vec<char>) -> (r: bool)
    ensures
        r == text_less(a@, b@),
{
    let mut i: usize = 0;
    proof {
        assert(a@.skip(0) =~= a@);
        assert(b@.skip(0) =~= b@);
    }
    while i < a.len() && i < b.len()
        invariant
            i <= a@.len(),
            i <= b@.len(),
            text_less(a@.skip(i as int), b@.skip(i as int)) == text_less(a@, b@),
        decreases a@.len() - i,
    {
        proof {
            assert(a@.skip(i as int).skip(1) =~= a@.skip(i + 1));
            assert(b@.skip(i as int).skip(1) =~= b@.skip(i + 1));
        }
        if a[i] != b[i] {
            return (a[i] as u32) < (b[i] as u32);
        }
        i += 1;
    }
    i < b.len()
}

/// Whether `a` comes before `b`.
pub fn less_text(a: &str, b: &str) -> (r: bool)
    ensures
        r == text_less(a@, b@),
{
    chars_less(&chars_of(a), &chars_of(b))
}

/// The keys that order texts.
pub fn keys_of_texts(v: &Vec<String>) -> (keys: Vec<i128>)
    ensures
        keys@ == text_keys(texts(v@)),
{
    let ghost ts = texts(v@);
    let mut keys: Vec<i128> = Vec::new();
    let mut i: usize = 0;
    while i < v.len()
        invariant
            i <= v@.len(),
            ts == texts(v@),
            keys@ == text_keys(ts).take(i as int),
        decreases v@.len() - i,
    {
        let mut count: u64 = 0;
        let mut j: usize = 0;
        while j < v.len()
            invariant
                i < v@.len(),
                j <= v@.len(),
                ts == texts(v@),
                count <= j,
                count == count_before(ts, ts[i as int], j as int),
            decreases v@.len() - j,
        {
            if less_text(v[j].as_str(), v[i].as_str()) {
                count += 1;
            }
            j += 1;
        }
        keys.push(count as i128);
        i += 1;
        proof {
            assert(keys@ =~= text_keys(ts).take(i as int));
        }
    }
    proof {
        assert(keys@ =~= text_keys(ts));
    }
    keys
}

/// Texts in ascending order.
pub fn sort_texts(v: &Vec<String>) -> (r: Vec<String>)
    ensures
        texts(r@) == sorted_texts(texts(v@)),
{
    let order = ascending_order(&keys_of_texts(v));
    let ghost whole = reordered(texts(v@), positions(order@));
    let mut r: Vec<String> = Vec::new();
    let mut i: usize = 0;
    proof {
        assert(texts(r@) =~= whole.take(0));
    }
    while i < order.len()
        invariant
            i <= order@.len(),
            forall|i: int| 0 <= i < order@.len() ==> #[trigger] order@[i] < v@.len(),
            whole == reordered(texts(v@), positions(order@)),
            texts(r@) == whole.take(i as int),
        decreases order@.len() - i,
    {
        push_text(&mut r, v[order[i]].clone());
        i += 1;
        proof {
            assert(texts(r@) =~= whole.take(i as int));
        }
    }
    proof {
        assert(whole.take(order@.len() as int) =~= whole);
    }
    r
}

/// Texts without immediate repetitions.
pub fn drop_runs(v: &Vec<String>) -> (r: Vec<String>)
    ensures
        texts(r@) == without_runs(texts(v@)),
{
    let ghost ts = texts(v@);
    let mut r: Vec<String> = Vec::new();
    let mut i: usize = 0;
    proof {
        assert(ts.take(0) =~= seq![]);
        assert(texts(r@) =~= seq![]);
    }
    while i < v.len()
        invariant
            i <= v@.len(),
            ts == texts(v@),
            texts(r@) == without_runs(ts.take(i as int)),
        decreases v@.len() - i,
    {
        proof {
            let ahead = ts.take(i + 1);
            assert(ahead.drop_last() =~= ts.take(i as int));
            assert(ahead.last() == v@[i as int]@);
            if i > 0 {
                assert(ahead[ahead.len() - 2] == v@[i - 1]@);
            }
        }
        if i == 0 || !(v[i - 1] == v[i]) {
            push_text(&mut r, v[i].clone());
        }
        i += 1;
    }
    proof {
        assert(ts.take(ts.len() as int) =~= ts);
    }
    r
}

/// The order of texts is strict and total: of two different texts exactly one comes first, and
/// it carries over from text to text.
pub proof fn lemma_text_order(a: Seq<char>, b: Seq<char>, c: Seq<char>)
    ensures
        !(text_less(a, b) && text_less(b, a)),
        a != b ==> text_less(a, b) || text_less(b, a),
        !text_less(a, a),
        text_less(a, b) && text_less(b, c) ==> text_less(a, c),
    decreases a.len() + b.len() + c.len(),
{
    if a.len() > 0 && b.len() > 0 && a[0] == b[0] {
        if c.len() > 0 {
            lemma_text_order(a.skip(1), b.skip(1), c.skip(1));
        } else {
            lemma_text_order(a.skip(1), b.skip(1), c);
        }
        if a != b {
            if a.skip(1) == b.skip(1) {
                assert(a =~= seq![a[0]] + a.skip(1));
                assert(b =~= seq![b[0]] + b.skip(1));
            }
        }
    } else if a.len() == 0 && b.len() == 0 {
        assert(a =~= b);
    }
    lemma_not_before_itself(a);
    if a.len() > 0 && b.len() > 0 && a[0] != b[0] {
        lemma_char_order(a[0], b[0]);
    }
}

proof fn lemma_not_before_itself(a: Seq<char>)
    ensures
        !text_less(a, a),
    decreases a.len(),
{
    if a.len() > 0 {
        lemma_not_before_itself(a.skip(1));
    }
}

/// Different characters have different code points.
proof fn lemma_char_order(x: char, y: char)
    requires
        x != y,
    ensures
        (x as u32) != (y as u32),
{
}

pub(crate) proof fn lemma_count_monotone(ts: Seq<Seq<char>>, x: Seq<char>, y: Seq<char>, n: int)
    requires
        0 <= n <= ts.len(),
        text_less(x, y),
    ensures
        count_before(ts, x, n) <= count_before(ts, y, n),
        (exists|i: int| 0 <= i < n && #[trigger] ts[i] == x) ==> count_before(ts, x, n) < count_before(ts, y, n),
    decreases n,
{
    if n > 0 {
        lemma_count_monotone(ts, x, y, n - 1);
        lemma_text_order(ts[n - 1], x, y);
        lemma_text_order(x, x, x);
    }
}

/// Sorted texts ascend: no text comes before an earlier one.
pub proof fn lemma_sorted_texts(ts: Seq<Seq<char>>, i: int, j: int)
    requires
        0 <= i < j < ts.len(),
        ts.len() <= u64::MAX,
    ensures
        sorted_texts(ts).len() == ts.len(),
        !text_less(sorted_texts(ts)[j], sorted_texts(ts)[i]),
{
    let keys = text_keys(ts);
    lemma_ascending(keys);
    let order = ascending(keys);
    let x = order[i];
    let y = order[j];
    assert(keys[x] <= keys[y]);
    if text_less(ts[y], ts[x]) {
        lemma_count_monotone(ts, ts[y], ts[x], ts.len() as int);
        lemma_count_bound(ts, ts[x], ts.len() as int);
        lemma_count_bound(ts, ts[y], ts.len() as int);
    }
}

/// At most as many texts come before another as are looked at.
pub proof fn lemma_count_bound(ts: Seq<Seq<char>>, t: Seq<char>, n: int)
    requires
        0 <= n <= ts.len(),
    ensures
        0 <= count_before(ts, t, n) <= n,
    decreases n,
{
    if n > 0 {
        lemma_count_bound(ts, t, n - 1);
    }
}

/// Each text comes before the next.
pub open spec fn strictly_ascending(ts: Seq<Seq<char>>) -> bool {
    forall|i: int, j: int| 0 <= i < j < ts.len() ==> text_less(#[trigger] ts[i], #[trigger] ts[j])
}

/// No text comes before an earlier one.
spec fn never_falls(ts: Seq<Seq<char>>) -> bool {
    forall|i: int, j: int| 0 <= i < j < ts.len() ==> !text_less(#[trigger] ts[j], #[trigger] ts[i])
}

proof fn lemma_without_runs(ts: Seq<Seq<char>>)
    requires
        never_falls(ts),
    ensures
        strictly_ascending(without_runs(ts)),
        ts.len() > 0 ==> without_runs(ts).len() > 0 && without_runs(ts).last() == ts.last(),
        forall|t: Seq<char>| ts.contains(t) <==> #[trigger] without_runs(ts).contains(t),
    decreases ts.len(),
{
    if ts.len() > 0 {
        let front = ts.drop_last();
        let before = without_runs(front);
        let after = without_runs(ts);
        assert forall|i: int, j: int| 0 <= i < j < front.len() implies !text_less(#[trigger] front[j], #[trigger] front[i]) by {
            assert(front[i] == ts[i] && front[j] == ts[j]);
        }
        lemma_without_runs(front);
        let last = ts.last();
        if ts.len() > 1 && ts[ts.len() - 2] == last {
            assert(front.last() == last);
            assert forall|t: Seq<char>| ts.contains(t) <==> #[trigger] after.contains(t) by {
                assert(after.contains(t) <==> front.contains(t));
                if ts.contains(t) {
                    let k = choose|k: int| 0 <= k < ts.len() && ts[k] == t;
                    if k < front.len() {
                        assert(front[k] == t);
                    } else {
                        assert(front[front.len() - 1] == t);
                    }
                }
                if front.contains(t) {
                    let k = choose|k: int| 0 <= k < front.len() && front[k] == t;
                    assert(ts[k] == t);
                }
            }
        } else {
            assert(after == before.push(last));
            assert forall|i: int, j: int| 0 <= i < j < after.len() implies text_less(#[trigger] after[i], #[trigger] after[j]) by {
                assert(after[i] == before[i]);
                if j == before.len() {
                    let top = before.last();
                    assert(top == front.last());
                    let m = front.len() - 1;
                    assert(ts[m] == top);
                    assert(!text_less(ts[ts.len() - 1], ts[m]));
                    lemma_text_order(top, last, last);
                    if i < before.len() - 1 {
                        assert(text_less(before[i], before[before.len() - 1]));
                        lemma_text_order(before[i], top, last);
                    }
                } else {
                    assert(after[j] == before[j]);
                }
            }
            assert forall|t: Seq<char>| ts.contains(t) <==> #[trigger] after.contains(t) by {
                assert(before.contains(t) <==> front.contains(t));
                if ts.contains(t) {
                    let k = choose|k: int| 0 <= k < ts.len() && ts[k] == t;
                    if k < front.len() {
                        assert(front[k] == t);
                        let b = choose|b: int| 0 <= b < before.len() && before[b] == t;
                        assert(after[b] == t);
                    } else {
                        assert(after[before.len() as int] == t);
                    }
                }
                if after.contains(t) {
                    let k = choose|k: int| 0 <= k < after.len() && after[k] == t;
                    if k < before.len() {
                        assert(before[k] == t);
                        let b = choose|b: int| 0 <= b < front.len() && front[b] == t;
                        assert(ts[b] == t);
                    } else {
                        assert(ts[ts.len() - 1] == t);
                    }
                }
            }
        }
    } else {
        assert forall|t: Seq<char>| ts.contains(t) <==> #[trigger] without_runs(ts).contains(t) by {}
    }
}

/// Sorting texts and dropping repetitions leaves each text once, in ascending order.
pub proof fn lemma_distinct_sorted(ts: Seq<Seq<char>>)
    requires
        ts.len() <= u64::MAX,
    ensures
        strictly_ascending(without_runs(sorted_texts(ts))),
{
    lemma_ascending(text_keys(ts));
    let sorted = sorted_texts(ts);
    assert forall|i: int, j: int| 0 <= i < j < sorted.len() implies !text_less(#[trigger] sorted[j], #[trigger] sorted[i]) by {
        lemma_sorted_texts(ts, i, j);
    }
    lemma_without_runs(sorted);
}

} // verus!
