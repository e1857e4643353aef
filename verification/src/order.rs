//! Stable ordering by keys.

use vstd::prelude::*;

verus! {

/// Whether position `a` comes before position `b`: by the keys there, or by the positions
/// where the keys are equal.
pub open spec fn comes_before(keys: Seq<(i128, u128)>, a: int, b: int) -> bool {
    ||| keys[a].0 < keys[b].0
    ||| keys[a].0 == keys[b].0 && keys[a].1 < keys[b].1
    ||| keys[a] == keys[b] && a < b
}

/// Whether `order` lists each position once, in the order of the keys. Positions with equal
/// keys keep their order.
pub open spec fn is_order(keys: Seq<(i128, u128)>, order: Seq<usize>) -> bool {
    &&& order.len() == keys.len()
    &&& forall|i: int| 0 <= i < order.len() ==> #[trigger] order[i] < keys.len()
    &&& forall|i: int, j: int|
        0 <= i < j < order.len() ==> comes_before(keys, order[i] as int, order[j] as int)
}

/// Whether `order` lists the positions below `n`, each once, in the order of the keys.
spec fn is_order_of_first(keys: Seq<(i128, u128)>, order: Seq<usize>, n: int) -> bool {
    &&& order.len() == n
    &&& forall|i: int| 0 <= i < order.len() ==> #[trigger] order[i] < n
    &&& forall|i: int, j: int|
        0 <= i < j < order.len() ==> comes_before(keys, order[i] as int, order[j] as int)
}

fn is_before(keys: &Vec<(i128, u128)>, a: usize, b: usize) -> (before: bool)
    requires
        a < keys@.len(),
        b < keys@.len(),
    ensures
        before == comes_before(keys@, a as int, b as int),
{
    let (x, y) = keys[a];
    let (z, w) = keys[b];
    x < z || (x == z && (y < w || (y == w && a < b)))
}

/// Lists the positions in the order of the keys.
pub fn order_by(keys: &Vec<(i128, u128)>) -> (order: Vec<usize>)
    ensures
        is_order(keys@, order@),
{
    let mut order: Vec<usize> = Vec::new();
    let mut n: usize = 0;
    while n < keys.len()
        invariant
            n <= keys@.len(),
            is_order_of_first(keys@, order@, n as int),
        decreases keys@.len() - n,
    {
        let mut p: usize = n;
        while p > 0 && !is_before(keys, order[p - 1], n)
            invariant
                p <= n < keys@.len(),
                is_order_of_first(keys@, order@, n as int),
                forall|i: int|
                    p <= i < n ==> comes_before(keys@, n as int, #[trigger] order@[i] as int),
            decreases p,
        {
            p = p - 1;
        }
        let ghost was = order@;
        order.insert(p, n);
        proof {
            assert(order@ =~= was.insert(p as int, n));
            assert forall|i: int, j: int| 0 <= i < j < order@.len() implies comes_before(
                keys@,
                order@[i] as int,
                order@[j] as int,
            ) by {
                if p > 0 {
                    assert(comes_before(keys@, was[p - 1] as int, n as int));
                    if i < p - 1 {
                        assert(comes_before(keys@, was[i] as int, was[p - 1] as int));
                    }
                }
                if i < p && j < p {
                    assert(comes_before(keys@, was[i] as int, was[j] as int));
                } else if i < p && j > p {
                    assert(comes_before(keys@, was[i] as int, was[j - 1] as int));
                } else if i == p {
                    assert(comes_before(keys@, n as int, was[j - 1] as int));
                } else if i > p {
                    assert(comes_before(keys@, was[i - 1] as int, was[j - 1] as int));
                }
            }
        }
        n = n + 1;
    }
    order
}

/// The elements of a list in an order.
pub open spec fn arranged<T>(list: Seq<T>, order: Seq<usize>) -> Seq<T> {
    order.map_values(|k: usize| list[k as int])
}

/// The positions of an order as integers.
pub open spec fn positions(order: Seq<usize>) -> Seq<int> {
    order.map_values(|k: usize| k as int)
}

/// An order lists every position.
pub proof fn order_lists_all(keys: Seq<(i128, u128)>, order: Seq<usize>)
    requires
        is_order(keys, order),
    ensures
        order.no_duplicates(),
        forall|k: int| 0 <= k < keys.len() ==> #[trigger] positions(order).contains(k),
{
    let n = keys.len();
    assert forall|i: int, j: int| 0 <= i < order.len() && 0 <= j < order.len() && i != j implies
        order[i] != order[j] by {
        if i < j {
            assert(comes_before(keys, order[i] as int, order[j] as int));
        } else {
            assert(comes_before(keys, order[j] as int, order[i] as int));
        }
    }
    let below = vstd::set_lib::set_int_range(0, n as int);
    vstd::set_lib::lemma_int_range(0, n as int);
    let as_ints = positions(order);
    assert(as_ints.no_duplicates());
    as_ints.unique_seq_to_set();
    vstd::seq_lib::seq_to_set_is_finite(as_ints);
    assert(as_ints.to_set().subset_of(below)) by {
        assert forall|x: int| as_ints.to_set().contains(x) implies below.contains(x) by {
            let i = choose|i: int| 0 <= i < as_ints.len() && as_ints[i] == x;
            assert(order[i] < keys.len());
        }
    }
    vstd::set_lib::lemma_subset_equality(as_ints.to_set(), below);
    assert forall|k: int| 0 <= k < keys.len() implies #[trigger] as_ints.contains(k) by {
        assert(below.contains(k));
        assert(as_ints.to_set().contains(k));
    }
}

/// To arrange a list keeps every element as often as it occurs.
pub proof fn arranged_is_a_permutation<T>(list: Seq<T>, keys: Seq<(i128, u128)>, order: Seq<usize>)
    requires
        is_order(keys, order),
        keys.len() == list.len(),
    ensures
        arranged(list, order).to_multiset() == list.to_multiset(),
    decreases list.len(),
{
    broadcast use vstd::seq_lib::group_to_multiset_ensures;
    order_lists_all(keys, order);
    if list.len() == 0 {
        assert(arranged(list, order) =~= list);
    } else {
        let n = list.len() - 1;
        assert(positions(order).contains(n));
        let p = choose|p: int| 0 <= p < positions(order).len() && positions(order)[p] == n;
        assert(order[p] == n);
        let rest = order.remove(p);
        let fewer = keys.drop_last();
        assert forall|i: int, j: int| 0 <= i < j < rest.len() implies comes_before(
            fewer,
            rest[i] as int,
            rest[j] as int,
        ) by {
            let a = if i < p { i } else { i + 1 };
            let b = if j < p { j } else { j + 1 };
            assert(comes_before(keys, order[a] as int, order[b] as int));
            assert(order[a] != order[p] && order[b] != order[p]);
        }
        assert forall|i: int| 0 <= i < rest.len() implies #[trigger] rest[i] < fewer.len() by {
            let a = if i < p { i } else { i + 1 };
            assert(order[a] < keys.len());
            assert(order[a] != order[p]);
        }
        arranged_is_a_permutation(list.drop_last(), fewer, rest);
        let all = arranged(list, order);
        let part = arranged(list.drop_last(), rest);
        assert(all.remove(p) =~= part);
        vstd::seq_lib::to_multiset_remove(all, p);
        assert(all[p] == list[n]);
        assert(list =~= list.drop_last().push(list[n]));
        assert(all.to_multiset().contains(all[p])) by {
            assert(all.contains(all[p]));
        }
        assert(all.to_multiset() =~= part.to_multiset().insert(list[n]));
        assert(list.to_multiset() =~= list.drop_last().to_multiset().insert(list[n]));
    }
}

/// There is only one order of given keys.
pub proof fn order_is_unique(keys: Seq<(i128, u128)>, a: Seq<usize>, b: Seq<usize>)
    requires
        is_order(keys, a),
        is_order(keys, b),
    ensures
        a == b,
{
    assert forall|n: int| 0 <= n <= a.len() implies a.take(n) == b.take(n) by {
        same_start(keys, a, b, n);
    }
    assert(a.take(a.len() as int) =~= a);
    assert(b.take(a.len() as int) =~= b);
}

proof fn same_start(keys: Seq<(i128, u128)>, a: Seq<usize>, b: Seq<usize>, n: int)
    requires
        is_order(keys, a),
        is_order(keys, b),
        0 <= n <= a.len(),
    ensures
        a.take(n) == b.take(n),
    decreases n,
{
    if n > 0 {
        same_start(keys, a, b, n - 1);
        assert(a.take(n) =~= a.take(n - 1).push(a[n - 1]));
        assert(b.take(n) =~= b.take(n - 1).push(b[n - 1]));
        if a[n - 1] != b[n - 1] {
            next_is_not_later(keys, a, b, n - 1);
            next_is_not_later(keys, b, a, n - 1);
        }
    } else {
        assert(a.take(0) =~= b.take(0));
    }
}

/// Where two orders have agreed, the next of the one is not before the next of the other.
proof fn next_is_not_later(keys: Seq<(i128, u128)>, a: Seq<usize>, b: Seq<usize>, n: int)
    requires
        is_order(keys, a),
        is_order(keys, b),
        0 <= n < a.len(),
        a.take(n) == b.take(n),
        a[n] != b[n],
    ensures
        comes_before(keys, b[n] as int, a[n] as int),
{
    order_lists_all(keys, a);
    order_lists_all(keys, b);
    assert(positions(b).contains(a[n] as int));
    let j = choose|j: int| 0 <= j < positions(b).len() && positions(b)[j] == a[n] as int;
    assert(b[j] == a[n]);
    if j < n {
        assert(a.take(n)[j] == a[j]);
        assert(b.take(n)[j] == b[j]);
        assert(a[j] == a[n]);
    }
}

} // verus!
