//! Maps: by id in the order of the ids, and by text in the order of the texts.

use crate::ids::Id;
use std::collections::BTreeMap;
use std::collections::BTreeSet;
use vstd::prelude::*;
use vstd::string::*;

verus! {

/// Whether ids stand in strictly increasing order.
pub open spec fn increasing(ids: Seq<Id>) -> bool {
    forall|i: int, j: int| 0 <= i < j < ids.len() ==> ids[i] < ids[j]
}

/// The ids of a finite set in increasing order.
pub open spec fn in_order(ids: Set<Id>) -> Seq<Id> {
    choose|s: Seq<Id>| increasing(s) && s.to_set() == ids
}

/// There is only one way to put ids into increasing order.
pub proof fn order_is_unique(a: Seq<Id>, b: Seq<Id>)
    requires
        increasing(a),
        increasing(b),
        a.to_set() == b.to_set(),
    ensures
        a == b,
    decreases a.len(),
{
    if a.len() == 0 {
        if b.len() > 0 {
            assert(b.to_set().contains(b[0]));
            assert(a.to_set().contains(b[0]));
        }
        assert(a =~= b);
    } else {
        assert(a.to_set().contains(a.last()));
        assert(b.to_set().contains(a.last()));
        let j = choose|j: int| 0 <= j < b.len() && b[j] == a.last();
        assert(b.to_set().contains(b.last()));
        assert(a.to_set().contains(b.last()));
        let i = choose|i: int| 0 <= i < a.len() && a[i] == b.last();
        assert(a.last() == b.last());
        let a1 = a.drop_last();
        let b1 = b.drop_last();
        assert forall|x: Id| a1.to_set().contains(x) == b1.to_set().contains(x) by {
            if a1.to_set().contains(x) {
                let k = choose|k: int| 0 <= k < a1.len() && a1[k] == x;
                assert(a[k] == x);
                assert(b.to_set().contains(x));
                let m = choose|m: int| 0 <= m < b.len() && b[m] == x;
                assert(b1[m] == x);
            }
            if b1.to_set().contains(x) {
                let k = choose|k: int| 0 <= k < b1.len() && b1[k] == x;
                assert(b[k] == x);
                assert(a.to_set().contains(x));
                let m = choose|m: int| 0 <= m < a.len() && a[m] == x;
                assert(a1[m] == x);
            }
        }
        assert(a1.to_set() =~= b1.to_set());
        order_is_unique(a1, b1);
        assert(a =~= a1.push(a.last()));
        assert(b =~= b1.push(b.last()));
    }
}

/// A finite set of ids can be put into increasing order.
pub proof fn order_exists(ids: Set<Id>)
    requires
        ids.finite(),
    ensures
        increasing(in_order(ids)),
        in_order(ids).to_set() == ids,
    decreases ids.len(),
{
    if ids.len() == 0 {
        assert(ids =~= Set::empty());
        let s = Seq::<Id>::empty();
        assert(s.to_set() =~= ids);
        assert(increasing(s) && s.to_set() == ids);
    } else {
        let leq = |a: Id, b: Id| a <= b;
        assert(vstd::relations::total_ordering(leq));
        let greatest = ids.find_unique_maximal(leq);
        ids.find_unique_maximal_ensures(leq);
        let rest = ids.remove(greatest);
        order_exists(rest);
        let s = in_order(rest).push(greatest);
        assert forall|i: int, j: int| 0 <= i < j < s.len() implies s[i] < s[j] by {
            if j < s.len() - 1 {
                assert(in_order(rest)[i] < in_order(rest)[j]);
            } else {
                assert(in_order(rest)[i] == s[i]);
                assert(in_order(rest).to_set().contains(s[i]));
                assert(ids.contains(s[i]));
                assert(rest.contains(s[i]));
                if greatest <= s[i] {
                    assert(leq(greatest, s[i]));
                    assert(leq(s[i], greatest));
                }
                assert(s[i] != greatest);
            }
        }
        in_order(rest).lemma_push_to_set_commute(greatest);
        assert(s.to_set() =~= ids);
        assert(increasing(s) && s.to_set() == ids);
    }
}

/// A sequence in increasing order is the order of its elements.
pub proof fn in_order_is(ids: Seq<Id>)
    requires
        increasing(ids),
    ensures
        in_order(ids.to_set()) == ids,
{
    let s = in_order(ids.to_set());
    assert(increasing(ids) && ids.to_set() == ids.to_set());
    order_is_unique(s, ids);
}

/// The value of an id.
pub fn get<V>(map: &BTreeMap<Id, V>, id: Id) -> (r: Option<&V>)
    ensures
        match r {
            Some(v) => map@.contains_key(id) && map@[id] == *v,
            None => !map@.contains_key(id),
        },
{
    broadcast use vstd::laws_cmp::group_laws_cmp;

    map.get(&id)
}

/// Whether an id has a value.
pub fn has<V>(map: &BTreeMap<Id, V>, id: Id) -> (b: bool)
    ensures
        b == map@.contains_key(id),
{
    broadcast use vstd::laws_cmp::group_laws_cmp;

    map.contains_key(&id)
}

/// Sets the value of an id.
pub fn put<V>(map: &mut BTreeMap<Id, V>, id: Id, value: V)
    ensures
        final(map)@ == old(map)@.insert(id, value),
{
    broadcast use vstd::laws_cmp::group_laws_cmp;

    let _ = map.insert(id, value);
}

/// Takes the value of an id out of the map.
pub fn take<V>(map: &mut BTreeMap<Id, V>, id: Id) -> (r: Option<V>)
    ensures
        final(map)@ == old(map)@.remove(id),
        match r {
            Some(v) => old(map)@.contains_key(id) && old(map)@[id] == v,
            None => !old(map)@.contains_key(id),
        },
{
    broadcast use vstd::laws_cmp::group_laws_cmp;

    map.remove(&id)
}

proof fn increasing_is_increasing(ids: Seq<&Id>)
    requires
        vstd::std_specs::btree::increasing_seq(ids),
    ensures
        increasing(ids.unref()),
{
    broadcast use vstd::laws_cmp::group_laws_cmp;
    use_order_of_references();
    assert forall|i: int, j: int| 0 <= i < j < ids.unref().len() implies ids.unref()[i]
        < ids.unref()[j] by {
        assert(vstd::std_specs::cmp::OrdSpec::cmp_spec(&ids[i], &ids[j]) is Less);
    }
}

proof fn use_order_of_references()
    ensures
        vstd::laws_cmp::obeys_cmp::<&Id>(),
{
    broadcast use vstd::laws_cmp::group_laws_cmp;
    assert(vstd::laws_cmp::obeys_cmp::<Id>());
}

/// The ids of a map in increasing order.
pub fn keys_of<V>(map: &BTreeMap<Id, V>) -> (ids: Vec<Id>)
    ensures
        ids@ == in_order(map@.dom()),
        increasing(ids@),
        ids@.to_set() == map@.dom(),
{
    broadcast use vstd::laws_cmp::group_laws_cmp;

    let mut ids: Vec<Id> = Vec::new();
    for id in it: map.keys()
        invariant
            it.seq().unref().to_set() == map@.dom(),
            vstd::std_specs::btree::increasing_seq(it.seq()),
            ids@ == it.seq().unref().take(it.index()),
            increasing(ids@),
            it.index() == it.seq().len() ==> ids@ =~= it.seq().unref(),
    {
        proof {
            increasing_is_increasing(it.seq());
        }
        assert(it.seq().unref().take(it.index() + 1) =~= it.seq().unref().take(it.index()).push(
            *id,
        ));
        ids.push(*id);
    }
    proof {
        in_order_is(ids@);
    }
    ids
}

/// The members of a set in increasing order.
pub fn members_of(set: &BTreeSet<Id>) -> (ids: Vec<Id>)
    ensures
        ids@ == in_order(set@),
        increasing(ids@),
        ids@.to_set() == set@,
{
    broadcast use vstd::laws_cmp::group_laws_cmp;

    let mut ids: Vec<Id> = Vec::new();
    for id in it: set.iter()
        invariant
            it.seq().unref().to_set() == set@,
            vstd::std_specs::btree::increasing_seq(it.seq()),
            ids@ == it.seq().unref().take(it.index()),
            increasing(ids@),
            it.index() == it.seq().len() ==> ids@ =~= it.seq().unref(),
    {
        proof {
            increasing_is_increasing(it.seq());
        }
        assert(it.seq().unref().take(it.index() + 1) =~= it.seq().unref().take(it.index()).push(
            *id,
        ));
        ids.push(*id);
    }
    proof {
        in_order_is(ids@);
    }
    ids
}

/// Adds an id to a set, and says whether it is new there.
pub fn set_put(set: &mut BTreeSet<Id>, id: Id) -> (fresh: bool)
    ensures
        final(set)@ == old(set)@.insert(id),
        fresh == !old(set)@.contains(id),
{
    broadcast use vstd::laws_cmp::group_laws_cmp;

    set.insert(id)
}

/// The set of one id.
pub fn set_of_one(id: Id) -> (set: BTreeSet<Id>)
    ensures
        set@ == set![id],
{
    let mut set: BTreeSet<Id> = BTreeSet::new();
    let _ = set_put(&mut set, id);
    assert(set@ =~= set![id]);
    set
}

/// The count of a key; nothing was counted where there is none.
pub fn count_of(map: &BTreeMap<(Id, u8), u32>, key: (Id, u8)) -> (n: u32)
    ensures
        n == if map@.contains_key(key) {
            map@[key]
        } else {
            0
        },
{
    broadcast use vstd::laws_cmp::group_laws_cmp;

    match map.get(&key) {
        Some(n) => *n,
        None => 0,
    }
}

/// Sets the count of a key.
pub fn set_count(map: &mut BTreeMap<(Id, u8), u32>, key: (Id, u8), n: u32)
    ensures
        final(map)@ == old(map)@.insert(key, n),
{
    broadcast use vstd::laws_cmp::group_laws_cmp;

    let _ = map.insert(key, n);
}

} // verus!
