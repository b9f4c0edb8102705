//! Lists in another order: reversed, or sorted by a key.

use vstd::prelude::*;

verus! {

/// The items of a list, last first.
pub fn reversed<T>(list: Vec<T>) -> (r: Vec<T>)
    ensures
        r@ == list@.reverse(),
{
    let ghost all = list@;
    let mut from = list;
    let mut to: Vec<T> = Vec::new();
    while from.len() > 0
        invariant
            from@.len() + to@.len() == all.len(),
            from@ == all.take(from@.len() as int),
            forall|i: int| 0 <= i < to@.len() ==> #[trigger] to@[i] == all[all.len() - 1 - i],
        decreases from.len(),
    {
        match from.pop() {
            Some(x) => {
                to.push(x);
            },
            None => {},
        }
    }
    assert(to@ =~= all.reverse());
    to
}

// ── sorting ──────────────────────────────────────────────────────────────────

/// Item `a` goes before item `b`: its key is smaller, or the keys are equal and it
/// came first.
pub open spec fn goes_before(keys: Seq<int>, a: int, b: int) -> bool {
    keys[a] < keys[b] || (keys[a] == keys[b] && a < b)
}

/// `order` lists the items with these keys, each once, by key, and items with equal
/// keys as they came.
pub open spec fn is_order(keys: Seq<int>, order: Seq<int>) -> bool {
    &&& order.len() == keys.len()
    &&& forall|i: int| 0 <= i < order.len() ==> 0 <= #[trigger] order[i] < keys.len()
    &&& forall|a: int| 0 <= a < keys.len() ==> #[trigger] order.contains(a)
    &&& forall|i: int, j: int|
        0 <= i < j < order.len() ==> goes_before(keys, #[trigger] order[i], #[trigger] order[j])
}

/// The items with these keys in order.
pub open spec fn sorted_order(keys: Seq<int>) -> Seq<int> {
    choose|order: Seq<int>| is_order(keys, order)
}

/// There is only one order.
pub proof fn order_is_unique(keys: Seq<int>, a: Seq<int>, b: Seq<int>)
    requires
        is_order(keys, a),
        is_order(keys, b),
    ensures
        a == b,
{
    assert forall|k: int| 0 <= k < a.len() implies a[k] == b[k] by {
        lemma_same_prefix(keys, a, b, k + 1);
    }
    assert(a =~= b);
}

proof fn lemma_same_prefix(keys: Seq<int>, a: Seq<int>, b: Seq<int>, n: int)
    requires
        is_order(keys, a),
        is_order(keys, b),
        0 <= n <= a.len(),
    ensures
        forall|k: int| 0 <= k < n ==> a[k] == b[k],
    decreases n,
{
    if n > 0 {
        lemma_same_prefix(keys, a, b, n - 1);
        let k = n - 1;
        if a[k] != b[k] {
            assert(b.contains(a[k]));
            let i = choose|i: int| 0 <= i < b.len() && b[i] == a[k];
            assert(a.contains(b[k]));
            let j = choose|j: int| 0 <= j < a.len() && a[j] == b[k];
            if i < k {
                assert(goes_before(keys, a[i], a[k]));
            } else if j < k {
                assert(goes_before(keys, b[j], b[k]));
            } else {
                assert(goes_before(keys, b[k], b[i]));
                assert(goes_before(keys, a[k], a[j]));
            }
        }
    }
}

/// There is an order for any keys.
pub proof fn order_exists(keys: Seq<int>)
    ensures
        is_order(keys, sorted_order(keys)),
{
    let order = lemma_some_order(keys);
    assert(is_order(keys, order));
}

proof fn lemma_some_order(keys: Seq<int>) -> (order: Seq<int>)
    ensures
        is_order(keys, order),
    decreases keys.len(),
{
    if keys.len() == 0 {
        Seq::empty()
    } else {
        let before = lemma_some_order(keys.drop_last());
        let k = keys.len() - 1;
        let p = lemma_slot(keys, before, k, 0);
        let order = before.insert(p, k);
        lemma_inserted(keys, before, p);
        order
    }
}

/// The place of item `k` among items that are in order and came before it.
proof fn lemma_slot(keys: Seq<int>, before: Seq<int>, k: int, from: int) -> (p: int)
    requires
        0 <= from <= before.len(),
        forall|i: int| 0 <= i < from ==> keys[#[trigger] before[i]] <= keys[k],
    ensures
        from <= p <= before.len(),
        forall|i: int| 0 <= i < p ==> keys[#[trigger] before[i]] <= keys[k],
        p < before.len() ==> keys[before[p]] > keys[k],
    decreases before.len() - from,
{
    if from < before.len() && keys[before[from]] <= keys[k] {
        lemma_slot(keys, before, k, from + 1)
    } else {
        from
    }
}

/// The last item, put into its place among the others, makes an order of all.
proof fn lemma_inserted(keys: Seq<int>, before: Seq<int>, p: int)
    requires
        keys.len() > 0,
        is_order(keys.drop_last(), before),
        0 <= p <= before.len(),
        forall|i: int| 0 <= i < p ==> keys[#[trigger] before[i]] <= keys.last(),
        p < before.len() ==> keys[before[p]] > keys.last(),
    ensures
        is_order(keys, before.insert(p, keys.len() - 1)),
{
    let k = keys.len() - 1;
    let rest = keys.drop_last();
    let order = before.insert(p, k);
    assert forall|i: int| p < i < before.len() implies keys[#[trigger] before[i]] > keys[k] by {
        assert(goes_before(rest, before[p], before[i]));
    }
    assert forall|a: int| 0 <= a < keys.len() implies #[trigger] order.contains(a) by {
        if a == k {
            assert(order[p] == k);
        } else {
            assert(before.contains(a));
            let i = choose|i: int| 0 <= i < before.len() && before[i] == a;
            if i < p {
                assert(order[i] == a);
            } else {
                assert(order[i + 1] == a);
            }
        }
    }
    assert forall|i: int, j: int| 0 <= i < j < order.len() implies goes_before(
        keys,
        #[trigger] order[i],
        #[trigger] order[j],
    ) by {
        let x = if i < p {
            i
        } else {
            i - 1
        };
        let y = if j < p {
            j
        } else {
            j - 1
        };
        if i == p {
            assert(order[j] == before[y]);
        } else if j == p {
            assert(order[i] == before[x]);
        } else {
            assert(order[i] == before[x] && order[j] == before[y]);
            assert(goes_before(rest, before[x], before[y]));
        }
    }
    assert forall|i: int| 0 <= i < order.len() implies 0 <= #[trigger] order[i] < keys.len() by {
        if i < p {
            assert(order[i] == before[i]);
        } else if i > p {
            assert(order[i] == before[i - 1]);
        }
    }
}

/// Indices as integers.
pub open spec fn indices(order: Seq<usize>) -> Seq<int> {
    order.map_values(|i: usize| i as int)
}

/// Keys as integers.
pub open spec fn whole_keys(keys: Seq<i128>) -> Seq<int> {
    keys.map_values(|k: i128| k as int)
}

/// The indices of the items with these keys, sorted by key; items with equal keys
/// stay as they came.
pub fn sort_order(keys: &Vec<i128>) -> (r: Vec<usize>)
    ensures
        indices(r@) == sorted_order(whole_keys(keys@)),
        is_order(whole_keys(keys@), indices(r@)),
        forall|i: int| 0 <= i < r@.len() ==> #[trigger] r@[i] < keys@.len(),
{
    let ghost all = whole_keys(keys@);
    let mut order: Vec<usize> = Vec::new();
    let mut k: usize = 0;
    while k < keys.len()
        invariant
            k <= keys@.len(),
            all == whole_keys(keys@),
            is_order(all.take(k as int), indices(order@)),
        decreases keys.len() - k,
    {
        let ghost before = indices(order@);
        assert forall|i: int| 0 <= i < order@.len() implies #[trigger] order@[i] < k by {
            assert(before[i] == order@[i]);
        }
        let mut p: usize = 0;
        while p < order.len() && keys[order[p]] <= keys[k]
            invariant
                p <= order@.len(),
                k < keys@.len(),
                before == indices(order@),
                all == whole_keys(keys@),
                forall|i: int| 0 <= i < order@.len() ==> #[trigger] order@[i] < k,
                is_order(all.take(k as int), before),
                forall|i: int| 0 <= i < p ==> all[#[trigger] before[i]] <= all[k as int],
            decreases order.len() - p,
        {
            assert(before[p as int] == order@[p as int]);
            p = p + 1;
        }
        proof {
            if p < order@.len() {
                assert(before[p as int] == order@[p as int]);
            }
            assert(all.take(k + 1).drop_last() =~= all.take(k as int));
            lemma_inserted(all.take(k + 1), before, p as int);
        }
        order.insert(p, k);
        assert(indices(order@) =~= before.insert(p as int, k as int));
        k = k + 1;
    }
    proof {
        assert(all.take(k as int) =~= all);
        order_is_unique(all, indices(order@), sorted_order(all));
        assert forall|i: int| 0 <= i < order@.len() implies #[trigger] order@[i] < keys@.len() by {
            assert(indices(order@)[i] == order@[i]);
        }
    }
    order
}

/// Items put in order are the same items, each as often as before.
pub proof fn order_keeps_items<A>(keys: Seq<int>, order: Seq<int>, items: Seq<A>)
    requires
        is_order(keys, order),
        items.len() == keys.len(),
    ensures
        order.map_values(|i: int| items[i]).to_multiset() == items.to_multiset(),
{
    let placed = order.map_values(|i: int| items[i]);
    assert forall|a: int, b: int| 0 <= a < b < order.len() implies order[a] != order[b] by {
        assert(goes_before(keys, order[a], order[b]));
    }
    lemma_same_items(order, items);
}

/// A list read in an order in which every index occurs once holds the same items.
proof fn lemma_same_items<A>(order: Seq<int>, items: Seq<A>)
    requires
        order.len() == items.len(),
        forall|a: int, b: int| 0 <= a < b < order.len() ==> order[a] != order[b],
        forall|i: int| 0 <= i < order.len() ==> 0 <= #[trigger] order[i] < items.len(),
        forall|a: int| 0 <= a < items.len() ==> #[trigger] order.contains(a),
    ensures
        order.map_values(|i: int| items[i]).to_multiset() == items.to_multiset(),
    decreases items.len(),
{
    broadcast use vstd::seq_lib::group_to_multiset_ensures;

    let placed = order.map_values(|i: int| items[i]);
    if items.len() == 0 {
        assert(placed =~= items);
    } else {
        let last = items.len() - 1;
        assert(order.contains(last));
        let p = choose|p: int| 0 <= p < order.len() && order[p] == last;
        let fewer = order.remove(p);
        let rest = items.drop_last();
        assert forall|i: int| 0 <= i < fewer.len() implies 0 <= #[trigger] fewer[i] < rest.len() by {
            if i < p {
                assert(fewer[i] == order[i]);
            } else {
                assert(fewer[i] == order[i + 1]);
            }
        }
        assert forall|a: int| 0 <= a < rest.len() implies #[trigger] fewer.contains(a) by {
            assert(order.contains(a));
            let q = choose|q: int| 0 <= q < order.len() && order[q] == a;
            if q < p {
                assert(fewer[q] == a);
            } else {
                assert(fewer[q - 1] == a);
            }
        }
        lemma_same_items(fewer, rest);
        let placed_fewer = fewer.map_values(|i: int| rest[i]);
        assert(placed.remove(p) =~= placed_fewer);
        assert(placed =~= placed_fewer.insert(p, items[last]));
        assert(items =~= rest.push(items[last]));
        vstd::seq_lib::to_multiset_insert(placed_fewer, p, items[last]);
        vstd::seq_lib::to_multiset_build(rest, items[last]);
    }
}

/// A filtered list holds exactly those of its items that pass.
pub proof fn filter_holds<A>(s: Seq<A>, pred: spec_fn(A) -> bool, x: A)
    ensures
        s.filter(pred).contains(x) <==> s.contains(x) && pred(x),
    decreases s.len(),
{
    reveal(Seq::filter);
    if s.len() > 0 {
        let rest = s.drop_last();
        let kept = rest.filter(pred);
        let all = s.filter(pred);
        filter_holds(rest, pred, x);
        if all.contains(x) {
            let k = choose|k: int| 0 <= k < all.len() && all[k] == x;
            if k < kept.len() {
                assert(kept[k] == x);
                let i = choose|i: int| 0 <= i < rest.len() && rest[i] == x;
                assert(s[i] == x);
            } else {
                assert(s[s.len() - 1] == x);
            }
        }
        if s.contains(x) && pred(x) {
            let i = choose|i: int| 0 <= i < s.len() && s[i] == x;
            if i < rest.len() {
                assert(rest[i] == x);
                let k = choose|k: int| 0 <= k < kept.len() && kept[k] == x;
                assert(all[k] == x);
            } else {
                assert(all[all.len() - 1] == x);
            }
        }
    }
}

} // verus!
