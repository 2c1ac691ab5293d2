//! Stable orderings, as sequences of positions.

use vstd::prelude::*;

verus! {

/// The members of `s` in the order given by positions.
pub open spec fn reordered<T>(s: Seq<T>, order: Seq<int>) -> Seq<T> {
    Seq::new(order.len(), |i: int| s[order[i]])
}

/// The positions of a list of indices.
pub open spec fn positions(order: Seq<usize>) -> Seq<int> {
    Seq::new(order.len(), |i: int| order[i] as int)
}

/// `order` with position `i` put behind every position whose key is not larger.
pub open spec fn placed(keys: Seq<i128>, order: Seq<int>, i: int) -> Seq<int>
    decreases order.len(),
{
    if order.len() == 0 || keys[order.last()] <= keys[i] {
        order.push(i)
    } else {
        placed(keys, order.drop_last(), i).push(order.last())
    }
}

/// The first `n` positions by ascending key, equal keys as they came.
pub open spec fn ascending_upto(keys: Seq<i128>, n: int) -> Seq<int>
    decreases n,
{
    if n <= 0 {
        seq![]
    } else {
        placed(keys, ascending_upto(keys, n - 1), n - 1)
    }
}

/// All positions by ascending key, equal keys as they came.
pub open spec fn ascending(keys: Seq<i128>) -> Seq<int> {
    ascending_upto(keys, keys.len() as int)
}

/// Whether `order` lists each position below `n` once.
pub open spec fn lists_each(order: Seq<int>, n: int) -> bool {
    &&& order.len() == n
    &&& forall|a: int| 0 <= a < n ==> 0 <= #[trigger] order[a] < n
    &&& forall|a: int, b: int| 0 <= a < b < n ==> order[a] != order[b]
}

/// Whether keys ascend along `order`, equal keys as they came.
pub open spec fn stably_ascends(keys: Seq<i128>, order: Seq<int>) -> bool {
    forall|a: int, b: int|
        0 <= a < b < order.len() ==> {
            let x = #[trigger] order[a];
            let y = #[trigger] order[b];
            keys[x] < keys[y] || keys[x] == keys[y] && x < y
        }
}

proof fn lemma_placed_is_insert(keys: Seq<i128>, order: Seq<int>, i: int, at: int)
    requires
        0 <= at <= order.len(),
        at > 0 ==> keys[order[at - 1]] <= keys[i],
        forall|k: int| at <= k < order.len() ==> keys[order[k]] > keys[i],
    ensures
        placed(keys, order, i) == order.insert(at, i),
    decreases order.len(),
{
    if at == order.len() {
        assert(order.insert(at, i) =~= order.push(i));
    } else {
        let front = order.drop_last();
        assert(keys[order[order.len() - 1]] > keys[i]);
        lemma_placed_is_insert(keys, front, i, at);
        assert(order.insert(at, i) =~= front.insert(at, i).push(order.last()));
    }
}

proof fn lemma_placed_keeps(keys: Seq<i128>, order: Seq<int>, i: int)
    requires
        i >= 0,
        lists_each(order, i),
        stably_ascends(keys, order),
    ensures
        lists_each(placed(keys, order, i), i + 1),
        stably_ascends(keys, placed(keys, order, i)),
{
    let at = lemma_split_point(keys, order, i, order.len() as int);
    lemma_placed_is_insert(keys, order, i, at);
    let r = order.insert(at, i);
    assert forall|a: int, b: int| 0 <= a < b < r.len() implies {
        let x = #[trigger] r[a];
        let y = #[trigger] r[b];
        keys[x] < keys[y] || keys[x] == keys[y] && x < y
    } by {
        if a == at {
            assert(r[b] == order[b - 1]);
        } else if b == at {
            assert(r[a] == order[a]);
            if a < at - 1 {
                let x = order[a];
                let y = order[at - 1];
                assert(keys[x] <= keys[y]);
            }
        } else {
            let oa = if a < at { a } else { a - 1 };
            let ob = if b < at { b } else { b - 1 };
            assert(r[a] == order[oa]);
            assert(r[b] == order[ob]);
        }
    }
    assert forall|a: int, b: int| 0 <= a < b < r.len() implies r[a] != r[b] by {
        let oa = if a < at { a } else { a - 1 };
        let ob = if b < at { b } else { b - 1 };
        if a != at {
            assert(r[a] == order[oa]);
        }
        if b != at {
            assert(r[b] == order[ob]);
        }
    }
    assert forall|a: int| 0 <= a < i + 1 implies 0 <= #[trigger] r[a] < i + 1 by {
        if a != at {
            let oa = if a < at { a } else { a - 1 };
            assert(r[a] == order[oa]);
        }
    }
}

/// Some point splits an order into keys not larger than `keys[i]` and larger ones behind.
proof fn lemma_split_point(keys: Seq<i128>, order: Seq<int>, i: int, upto: int) -> (at: int)
    requires
        0 <= upto <= order.len(),
        forall|k: int| upto <= k < order.len() ==> keys[order[k]] > keys[i],
    ensures
        0 <= at <= order.len(),
        at > 0 ==> keys[order[at - 1]] <= keys[i],
        forall|k: int| at <= k < order.len() ==> keys[order[k]] > keys[i],
    decreases upto,
{
    if upto > 0 && keys[order[upto - 1]] > keys[i] {
        lemma_split_point(keys, order, i, upto - 1)
    } else {
        upto
    }
}

proof fn lemma_ascending_upto(keys: Seq<i128>, n: int)
    requires
        0 <= n,
    ensures
        lists_each(ascending_upto(keys, n), n),
        stably_ascends(keys, ascending_upto(keys, n)),
    decreases n,
{
    if n > 0 {
        lemma_ascending_upto(keys, n - 1);
        lemma_placed_keeps(keys, ascending_upto(keys, n - 1), n - 1);
    }
}

/// The ascending order lists every position once, its keys never fall, and equal keys keep
/// the order in which they came.
pub proof fn lemma_ascending(keys: Seq<i128>)
    ensures
        lists_each(ascending(keys), keys.len() as int),
        stably_ascends(keys, ascending(keys)),
{
    lemma_ascending_upto(keys, keys.len() as int);
}

/// Where position `x` stands in an order that lists each position once.
pub proof fn lemma_position(order: Seq<int>, n: int, x: int) -> (at: int)
    requires
        lists_each(order, n),
        0 <= x < n,
    ensures
        0 <= at < n,
        order[at] == x,
{
    let s = order.to_set();
    let whole = vstd::set_lib::set_int_range(0, n);
    order.unique_seq_to_set();
    vstd::set_lib::lemma_int_range(0, n);
    assert(s.subset_of(whole));
    vstd::set_lib::lemma_subset_equality(s, whole);
    assert(s.contains(x));
    order.index_of(x)
}

/// Positions by ascending key, equal keys as they came.
pub fn ascending_order(keys: &Vec<i128>) -> (order: Vec<usize>)
    ensures
        positions(order@) == ascending(keys@),
        order@.len() == keys@.len(),
        forall|i: int| 0 <= i < order@.len() ==> #[trigger] order@[i] < keys@.len(),
{
    let mut order: Vec<usize> = Vec::new();
    let mut i: usize = 0;
    while i < keys.len()
        invariant
            i <= keys.len(),
            order@.len() == i,
            positions(order@) == ascending_upto(keys@, i as int),
            forall|k: int| 0 <= k < order@.len() ==> #[trigger] order@[k] < i,
        decreases keys.len() - i,
    {
        let mut at: usize = order.len();
        while at > 0 && keys[order[at - 1]] > keys[i]
            invariant
                at <= order@.len(),
                i < keys@.len(),
                order@.len() == i,
                forall|k: int| 0 <= k < order@.len() ==> #[trigger] order@[k] < i,
                forall|k: int| at <= k < order@.len() ==> keys@[#[trigger] order@[k] as int] > keys@[i as int],
            decreases at,
        {
            at -= 1;
        }
        proof {
            let p = positions(order@);
            assert forall|k: int| at <= k < p.len() implies keys@[p[k]] > keys@[i as int] by {
                assert(p[k] == order@[k]);
            }
            lemma_placed_is_insert(keys@, p, i as int, at as int);
            assert(positions(order@.insert(at as int, i)) =~= p.insert(at as int, i as int));
        }
        let ghost before = order@;
        order.insert(at, i);
        proof {
            assert forall|k: int| 0 <= k < order@.len() implies #[trigger] order@[k] < i + 1 by {
                if k < at {
                    assert(order@[k] == before[k]);
                } else if k > at {
                    assert(order@[k] == before[k - 1]);
                }
            }
        }
        i += 1;
    }
    order
}

} // verus!
