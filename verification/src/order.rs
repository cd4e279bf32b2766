//! Stable ordering by keys.

use vstd::prelude::*;

verus! {

/// The position in `order` before which `x` goes: after the last index whose key is no larger.
pub open spec fn slot(order: Seq<int>, keys: Seq<int>, x: int) -> int
    decreases order.len(),
{
    if order.len() == 0 || keys[order.last()] <= keys[x] {
        order.len() as int
    } else {
        slot(order.drop_last(), keys, x)
    }
}

/// The indices below `n`, each put in after the ones whose key is no larger than its own.
pub open spec fn order_upto(keys: Seq<int>, n: nat) -> Seq<int>
    decreases n,
{
    if n == 0 {
        Seq::empty()
    } else {
        let front = order_upto(keys, (n - 1) as nat);
        front.insert(slot(front, keys, n - 1), n - 1)
    }
}

/// The indices of `keys` in ascending order of their keys, equal keys in the order in which
/// they stand.
pub open spec fn order_by(keys: Seq<int>) -> Seq<int> {
    order_upto(keys, keys.len())
}

/// Machine integers as integers.
pub open spec fn ints(s: Seq<u64>) -> Seq<int> {
    s.map_values(|k: u64| k as int)
}

/// Positions as integers.
pub open spec fn positions(s: Seq<usize>) -> Seq<int> {
    s.map_values(|k: usize| k as int)
}

/// `order` lists distinct indices below `n`, ascending by key and then by index.
pub open spec fn is_ordered(order: Seq<int>, keys: Seq<int>, n: nat) -> bool {
    &&& order.len() == n
    &&& forall|a: int| 0 <= a < order.len() ==> 0 <= #[trigger] order[a] < n
    &&& forall|a: int, b: int|
        0 <= a < b < order.len() ==> keys[#[trigger] order[a]] < keys[#[trigger] order[b]] || (
        keys[order[a]] == keys[order[b]] && order[a] < order[b])
}

proof fn lemma_slot(order: Seq<int>, keys: Seq<int>, x: int)
    ensures
        0 <= slot(order, keys, x) <= order.len(),
        forall|a: int| slot(order, keys, x) <= a < order.len() ==> keys[#[trigger] order[a]] > keys[x],
        slot(order, keys, x) > 0 ==> keys[order[slot(order, keys, x) - 1]] <= keys[x],
    decreases order.len(),
{
    if order.len() > 0 && keys[order.last()] > keys[x] {
        lemma_slot(order.drop_last(), keys, x);
        assert forall|a: int| slot(order, keys, x) <= a < order.len() implies keys[#[trigger] order[a]]
            > keys[x] by {
            if a < order.len() - 1 {
                assert(order.drop_last()[a] == order[a]);
            }
        }
    }
}

proof fn lemma_slot_is(order: Seq<int>, keys: Seq<int>, x: int, p: int)
    requires
        0 <= p <= order.len(),
        forall|a: int| p <= a < order.len() ==> keys[#[trigger] order[a]] > keys[x],
        p > 0 ==> keys[order[p - 1]] <= keys[x],
    ensures
        slot(order, keys, x) == p,
    decreases order.len(),
{
    if order.len() > 0 {
        if keys[order.last()] <= keys[x] {
            assert(p == order.len());
        } else {
            assert(p < order.len());
            assert forall|a: int| p <= a < order.len() - 1 implies keys[#[trigger] order.drop_last()[a]]
                > keys[x] by {
                assert(order[a] == order.drop_last()[a]);
            }
            lemma_slot_is(order.drop_last(), keys, x, p);
        }
    }
}

proof fn lemma_order_upto(keys: Seq<int>, n: nat)
    requires
        n <= keys.len(),
    ensures
        is_ordered(order_upto(keys, n), keys, n),
    decreases n,
{
    if n > 0 {
        let front = order_upto(keys, (n - 1) as nat);
        lemma_order_upto(keys, (n - 1) as nat);
        lemma_slot(front, keys, n - 1);
        let p = slot(front, keys, n - 1);
        let r = front.insert(p, n - 1);
        assert forall|a: int, b: int| 0 <= a < b < r.len() implies keys[#[trigger] r[a]] < keys[
        #[trigger] r[b]] || (keys[r[a]] == keys[r[b]] && r[a] < r[b]) by {
            if b == p {
                let last = front[p - 1];
                assert(r[a] == front[a]);
                if a < p - 1 {
                    assert(keys[front[a]] <= keys[last]);
                }
                assert(0 <= front[a] < n - 1);
            } else if a == p {
                assert(r[b] == front[b - 1]);
                assert(keys[front[b - 1]] > keys[n - 1]);
            } else {
                let x = if a < p { a } else { a - 1 };
                let y = if b < p { b } else { b - 1 };
                assert(r[a] == front[x] && r[b] == front[y]);
            }
        }
        assert forall|a: int| 0 <= a < r.len() implies 0 <= #[trigger] r[a] < n by {
            if a != p {
                let x = if a < p { a } else { a - 1 };
                assert(r[a] == front[x]);
            }
        }
    }
}

/// Stable sorting: `order_by` lists every index once, ascending by key, and keeps the order of
/// equal keys.
pub proof fn lemma_order_by(keys: Seq<int>)
    ensures
        is_ordered(order_by(keys), keys, keys.len()),
        order_by(keys).no_duplicates(),
        forall|i: int| 0 <= i < keys.len() ==> #[trigger] order_by(keys).contains(i),
{
    lemma_order_upto(keys, keys.len());
    assert forall|i: int| 0 <= i < keys.len() implies #[trigger] order_by(keys).contains(i) by {
        lemma_order_has(keys, keys.len(), i);
    }
}

proof fn lemma_order_has(keys: Seq<int>, n: nat, i: int)
    requires
        0 <= i < n <= keys.len(),
    ensures
        order_upto(keys, n).contains(i),
    decreases n,
{
    let front = order_upto(keys, (n - 1) as nat);
    lemma_slot(front, keys, n - 1);
    let p = slot(front, keys, n - 1);
    let r = order_upto(keys, n);
    if i == n - 1 {
        assert(r[p] == i);
    } else {
        lemma_order_has(keys, (n - 1) as nat, i);
        let a = choose|a: int| 0 <= a < front.len() && front[a] == i;
        assert(r[if a < p { a } else { a + 1 }] == i);
    }
}

/// The indices of `keys` in ascending order of their keys, equal keys in the order in which
/// they stand.
pub fn order_by_keys(keys: &Vec<u64>) -> (r: Vec<usize>)
    ensures
        positions(r@) == order_by(ints(keys@)),
        r@.len() == keys@.len(),
        forall|a: int| 0 <= a < r@.len() ==> #[trigger] r@[a] < keys@.len(),
{
    let ghost k = ints(keys@);
    let mut r: Vec<usize> = Vec::with_capacity(keys.len());
    let mut n: usize = 0;
    proof {
        assert(positions(r@) =~= order_upto(k, 0));
    }
    while n < keys.len()
        invariant
            n <= keys@.len(),
            k == ints(keys@),
            positions(r@) == order_upto(k, n as nat),
            r@.len() == n,
            forall|a: int| 0 <= a < r@.len() ==> #[trigger] r@[a] < n,
        decreases keys.len() - n,
    {
        let mut p: usize = n;
        while p > 0 && keys[r[p - 1]] > keys[n]
            invariant
                p <= n < keys@.len(),
                r@.len() == n,
                k == ints(keys@),
                forall|a: int| 0 <= a < r@.len() ==> #[trigger] r@[a] < n,
                forall|a: int| p <= a < n ==> k[#[trigger] positions(r@)[a]] > k[n as int],
            decreases p,
        {
            proof {
                assert(positions(r@)[p - 1] == r@[p - 1]);
            }
            p = p - 1;
        }
        proof {
            let front = positions(r@);
            if p > 0 {
                assert(front[p - 1] == r@[p - 1]);
            }
            lemma_slot_is(front, k, n as int, p as int);
        }
        let ghost before = r@;
        r.insert(p, n);
        proof {
            assert(positions(r@) =~= positions(before).insert(p as int, n as int));
            assert forall|a: int| 0 <= a < r@.len() implies #[trigger] r@[a] < n + 1 by {
                if a != p {
                    let x = if a < p { a } else { a - 1 };
                    assert(r@[a] == before[x]);
                }
            }
        }
        n = n + 1;
    }
    r
}

} // verus!
