//! Stable ordering by text keys.
use vstd::prelude::*;
use crate::text::{
    lemma_text_lt_total, lemma_text_lt_transitive, relate_text, text_lt, texts, Relation,
};

verus! {

/// Where the key with index `k` goes into an order: behind all keys that are not greater.
pub open spec fn placed(keys: Seq<Seq<char>>, order: Seq<int>, k: int) -> Seq<int>
    decreases order.len(),
{
    if order.len() > 0 && text_lt(keys[k], keys[order.last()]) {
        placed(keys, order.drop_last(), k).push(order.last())
    } else {
        order.push(k)
    }
}

/// The stable order of the first `n` keys: their indices, the smallest key first, and equal keys
/// as they came.
pub open spec fn order_of_first(keys: Seq<Seq<char>>, n: nat) -> Seq<int>
    decreases n,
{
    if n == 0 {
        Seq::empty()
    } else {
        placed(keys, order_of_first(keys, (n - 1) as nat), n - 1)
    }
}

/// The stable order of keys.
pub open spec fn stable_order(keys: Seq<Seq<char>>) -> Seq<int> {
    order_of_first(keys, keys.len())
}

/// A list in the stable order of its keys.
pub open spec fn arranged<A>(list: Seq<A>, keys: Seq<Seq<char>>) -> Seq<A> {
    Seq::new(list.len(), |i: int| list[stable_order(keys)[i]])
}

/// Whether indices are in stable order: keys ascend, and equal ones stand as they came.
pub open spec fn is_stable(keys: Seq<Seq<char>>, order: Seq<int>) -> bool {
    forall|i: int, j: int|
        #![trigger order[i], order[j]]
        0 <= i < j < order.len() ==> text_lt(keys[order[i]], keys[order[j]]) || (keys[order[i]]
            == keys[order[j]] && order[i] < order[j])
}

proof fn lemma_placed(keys: Seq<Seq<char>>, order: Seq<int>, k: int, p: int)
    requires
        0 <= p <= order.len(),
        forall|j: int| p <= j < order.len() ==> text_lt(keys[k], keys[#[trigger] order[j]]),
        p > 0 ==> !text_lt(keys[k], keys[order[p - 1]]),
    ensures
        placed(keys, order, k) == order.insert(p, k),
    decreases order.len(),
{
    if p < order.len() {
        let rest = order.drop_last();
        assert forall|j: int| p <= j < rest.len() implies text_lt(
            keys[k],
            keys[#[trigger] rest[j]],
        ) by {
            assert(rest[j] == order[j]);
        }
        assert(order[order.len() - 1] == order.last());
        lemma_placed(keys, rest, k, p);
        assert(rest.insert(p, k).push(order.last()) =~= order.insert(p, k));
    } else {
        assert(order.push(k) =~= order.insert(p, k));
    }
}

/// The stable order of keys: their indices, the smallest first.
pub fn sort_order(keys: &Vec<String>) -> (order: Vec<usize>)
    ensures
        order@.len() == keys@.len(),
        forall|i: int| 0 <= i < order@.len() ==> order@[i] < keys@.len(),
        order@.map_values(|k: usize| k as int) == stable_order(texts(keys@)),
{
    let ghost all = texts(keys@);
    let mut order: Vec<usize> = Vec::new();
    let mut k: usize = 0;
    assert(order@.map_values(|k: usize| k as int) =~= Seq::<int>::empty());
    while k < keys.len()
        invariant
            0 <= k <= keys@.len(),
            all == texts(keys@),
            order@.len() == k,
            forall|i: int| 0 <= i < k ==> order@[i] < k,
            order@.map_values(|k: usize| k as int) == order_of_first(all, k as nat),
        decreases keys@.len() - k,
    {
        let ghost before = order@.map_values(|k: usize| k as int);
        let mut p: usize = order.len();
        let mut go: bool = true;
        while go && p > 0
            invariant
                0 <= p <= order@.len(),
                order@.len() == k < keys@.len(),
                all == texts(keys@),
                forall|i: int| 0 <= i < k ==> order@[i] < k,
                forall|j: int|
                    p <= j < order@.len() ==> text_lt(
                        all[k as int],
                        all[(#[trigger] order@[j]) as int],
                    ),
                !go ==> p > 0 && !text_lt(all[k as int], all[order@[p - 1] as int]),
            decreases p, go as int,
        {
            match relate_text(keys[k].as_str(), keys[order[p - 1]].as_str()) {
                Relation::Before => {
                    p = p - 1;
                },
                _ => {
                    proof {
                        lemma_text_lt_total(all[k as int], all[order@[p - 1] as int]);
                    }
                    go = false;
                },
            }
        }
        proof {
            assert forall|j: int| p <= j < before.len() implies text_lt(
                all[k as int],
                all[#[trigger] before[j]],
            ) by {
                assert(before[j] == order@[j] as int);
            }
            if p > 0 {
                assert(before[p - 1] == order@[p - 1] as int);
            }
            lemma_placed(all, before, k as int, p as int);
        }
        order.insert(p, k);
        assert(order@.map_values(|k: usize| k as int) =~= before.insert(p as int, k as int));
        k += 1;
    }
    order
}

proof fn lemma_insert_stable(keys: Seq<Seq<char>>, order: Seq<int>, k: int)
    requires
        is_stable(keys, order),
        k >= 0,
        forall|i: int| 0 <= i < order.len() ==> 0 <= #[trigger] order[i] < k,
    ensures
        is_stable(keys, placed(keys, order, k)),
        placed(keys, order, k).len() == order.len() + 1,
        forall|v: int|
            #[trigger] placed(keys, order, k).contains(v) <==> order.contains(v) || v == k,
        forall|i: int|
            0 <= i <= order.len() ==> 0 <= #[trigger] placed(keys, order, k)[i] <= k,
    decreases order.len(),
{
    let after = placed(keys, order, k);
    if order.len() > 0 && text_lt(keys[k], keys[order.last()]) {
        let rest = order.drop_last();
        assert forall|i: int, j: int|
            #![trigger rest[i], rest[j]]
            0 <= i < j < rest.len() implies text_lt(keys[rest[i]], keys[rest[j]]) || (keys[rest[i]]
            == keys[rest[j]] && rest[i] < rest[j]) by {
            assert(rest[i] == order[i] && rest[j] == order[j]);
        }
        assert forall|i: int| 0 <= i < rest.len() implies 0 <= #[trigger] rest[i] < k by {
            assert(rest[i] == order[i]);
        }
        lemma_insert_stable(keys, rest, k);
        let head = placed(keys, rest, k);
        assert(after == head.push(order.last()));
        assert forall|i: int, j: int|
            #![trigger after[i], after[j]]
            0 <= i < j < after.len() implies text_lt(keys[after[i]], keys[after[j]]) || (
        keys[after[i]] == keys[after[j]] && after[i] < after[j]) by {
            if j < head.len() {
                assert(after[i] == head[i] && after[j] == head[j]);
            } else {
                assert(after[i] == head[i]);
                assert(head.contains(head[i]));
                if head[i] != k {
                    assert(rest.contains(head[i]));
                    let m = choose|m: int| 0 <= m < rest.len() && rest[m] == head[i];
                    assert(order[m] == head[i]);
                    assert(order[order.len() - 1] == order.last());
                }
            }
        }
        assert forall|v: int| after.contains(v) <==> order.contains(v) || v == k by {
            if after.contains(v) {
                let m = choose|m: int| 0 <= m < after.len() && after[m] == v;
                if m < head.len() {
                    assert(head[m] == v);
                    assert(head.contains(v));
                    if v != k {
                        assert(rest.contains(v));
                        let q = choose|q: int| 0 <= q < rest.len() && rest[q] == v;
                        assert(order[q] == v);
                    }
                } else {
                    assert(order[order.len() - 1] == v);
                }
            }
            if order.contains(v) {
                let m = choose|m: int| 0 <= m < order.len() && order[m] == v;
                if m < rest.len() {
                    assert(rest[m] == v);
                    assert(rest.contains(v));
                    assert(head.contains(v));
                    let q = choose|q: int| 0 <= q < head.len() && head[q] == v;
                    assert(after[q] == v);
                } else {
                    assert(after[after.len() - 1] == v);
                }
            }
            if v == k {
                assert(head.contains(v));
                let q = choose|q: int| 0 <= q < head.len() && head[q] == v;
                assert(after[q] == v);
            }
        }
    } else {
        assert(after == order.push(k));
        assert forall|i: int, j: int|
            #![trigger after[i], after[j]]
            0 <= i < j < after.len() implies text_lt(keys[after[i]], keys[after[j]]) || (
        keys[after[i]] == keys[after[j]] && after[i] < after[j]) by {
            if j == order.len() {
                let last = order.last();
                assert(order[order.len() - 1] == last);
                lemma_text_lt_total(keys[k], keys[last]);
                if i < order.len() - 1 {
                    assert(after[i] == order[i]);
                    if text_lt(keys[order[i]], keys[last]) && text_lt(keys[last], keys[k]) {
                        lemma_text_lt_transitive(keys[order[i]], keys[last], keys[k]);
                    }
                }
            } else {
                assert(after[i] == order[i] && after[j] == order[j]);
            }
        }
        assert forall|v: int| after.contains(v) <==> order.contains(v) || v == k by {
            if order.contains(v) {
                let m = choose|m: int| 0 <= m < order.len() && order[m] == v;
                assert(after[m] == v);
            }
            assert(after[order.len() as int] == k);
            if after.contains(v) && v != k {
                let m = choose|m: int| 0 <= m < after.len() && after[m] == v;
                assert(order[m] == v);
            }
        }
    }
}

/// The stable order holds each index once, its keys ascend, and equal keys stand as they came.
pub proof fn law_order_is_stable(keys: Seq<Seq<char>>, n: nat)
    ensures
        order_of_first(keys, n).len() == n,
        is_stable(keys, order_of_first(keys, n)),
        forall|v: int| #[trigger] order_of_first(keys, n).contains(v) <==> 0 <= v < n,
        forall|i: int| 0 <= i < n ==> 0 <= #[trigger] order_of_first(keys, n)[i] < n,
    decreases n,
{
    if n > 0 {
        let before = order_of_first(keys, (n - 1) as nat);
        law_order_is_stable(keys, (n - 1) as nat);
        lemma_insert_stable(keys, before, n - 1);
    }
}

/// A list that is put in order holds just what it held.
pub proof fn law_arranging_keeps_everything<A>(list: Seq<A>, keys: Seq<Seq<char>>, x: A)
    requires
        keys.len() == list.len(),
    ensures
        arranged(list, keys).len() == list.len(),
        arranged(list, keys).contains(x) <==> list.contains(x),
{
    let shown = arranged(list, keys);
    let order = stable_order(keys);
    law_order_is_stable(keys, keys.len());
    if shown.contains(x) {
        let k = choose|k: int| 0 <= k < shown.len() && shown[k] == x;
        assert(0 <= order[k] < list.len());
        assert(list[order[k]] == x);
    }
    if list.contains(x) {
        let k = choose|k: int| 0 <= k < list.len() && list[k] == x;
        assert(order.contains(k));
        let q = choose|q: int| 0 <= q < order.len() && order[q] == k;
        assert(shown[q] == x);
    }
}

} // verus!
