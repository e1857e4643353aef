//! A map from texts, kept in the order of the texts.

use crate::text::{
    before, same_text, text_less, text_less_irreflexive, text_less_total, text_less_transitive,
};
use vstd::prelude::*;
use vstd::string::*;

verus! {

/// Whether texts stand in strictly increasing order.
pub open spec fn texts_increase(keys: Seq<Seq<char>>) -> bool {
    forall|i: int, j: int| 0 <= i < j < keys.len() ==> text_less(keys[i], keys[j])
}

/// The texts of a finite set in increasing order.
pub open spec fn texts_in_order(keys: Set<Seq<char>>) -> Seq<Seq<char>> {
    choose|s: Seq<Seq<char>>| texts_increase(s) && s.to_set() == keys
}

/// There is only one way to put texts into increasing order.
pub proof fn text_order_is_unique(a: Seq<Seq<char>>, b: Seq<Seq<char>>)
    requires
        texts_increase(a),
        texts_increase(b),
        a.to_set() == b.to_set(),
    ensures
        a == b,
    decreases a.len(),
{
    if a.len() == 0 {
        if b.len() > 0 {
            assert(b.to_set().contains(b[0]));
            assert(a.to_set().contains(b[0]));
        }
        assert(a =~= b);
    } else {
        assert(a.to_set().contains(a.last()));
        assert(b.to_set().contains(a.last()));
        let j = choose|j: int| 0 <= j < b.len() && b[j] == a.last();
        assert(b.to_set().contains(b.last()));
        assert(a.to_set().contains(b.last()));
        let i = choose|i: int| 0 <= i < a.len() && a[i] == b.last();
        if a.last() != b.last() {
            assert(text_less(a[i], a.last()));
            assert(text_less(b[j], b.last()));
            text_less_transitive(a.last(), b.last(), a.last());
            text_less_irreflexive(a.last());
        }
        let a1 = a.drop_last();
        let b1 = b.drop_last();
        assert forall|x: Seq<char>| a1.to_set().contains(x) == b1.to_set().contains(x) by {
            text_less_irreflexive(x);
            if a1.to_set().contains(x) {
                let k = choose|k: int| 0 <= k < a1.len() && a1[k] == x;
                assert(a[k] == x);
                assert(text_less(a[k], a.last()));
                assert(b.to_set().contains(x));
                let m = choose|m: int| 0 <= m < b.len() && b[m] == x;
                assert(b1[m] == x);
            }
            if b1.to_set().contains(x) {
                let k = choose|k: int| 0 <= k < b1.len() && b1[k] == x;
                assert(b[k] == x);
                assert(text_less(b[k], b.last()));
                assert(a.to_set().contains(x));
                let m = choose|m: int| 0 <= m < a.len() && a[m] == x;
                assert(a1[m] == x);
            }
        }
        assert(a1.to_set() =~= b1.to_set());
        text_order_is_unique(a1, b1);
        assert(a =~= a1.push(a.last()));
        assert(b =~= b1.push(b.last()));
    }
}

/// A finite set of texts can be put into increasing order.
pub proof fn text_order_exists(keys: Set<Seq<char>>)
    requires
        keys.finite(),
    ensures
        texts_increase(texts_in_order(keys)),
        texts_in_order(keys).to_set() == keys,
    decreases keys.len(),
{
    if keys.len() == 0 {
        assert(keys =~= Set::empty());
        let s = Seq::<Seq<char>>::empty();
        assert(s.to_set() =~= keys);
        assert(texts_increase(s) && s.to_set() == keys);
    } else {
        let leq = |a: Seq<char>, b: Seq<char>| a == b || text_less(a, b);
        assert(vstd::relations::total_ordering(leq)) by {
            assert forall|a: Seq<char>, b: Seq<char>| #[trigger] leq(a, b) && #[trigger] leq(
                b,
                a,
            ) implies a == b by {
                if a != b {
                    text_less_transitive(a, b, a);
                    text_less_irreflexive(a);
                }
            }
            assert forall|a: Seq<char>, b: Seq<char>, c: Seq<char>| #[trigger]
                leq(a, b) && #[trigger] leq(b, c) implies leq(a, c) by {
                if a != b && b != c {
                    text_less_transitive(a, b, c);
                }
            }
            assert forall|a: Seq<char>, b: Seq<char>| #[trigger] leq(a, b) || leq(b, a) by {
                if a != b {
                    text_less_total(a, b);
                }
            }
        }
        let last = keys.find_unique_maximal(leq);
        keys.find_unique_maximal_ensures(leq);
        let rest = keys.remove(last);
        text_order_exists(rest);
        let s = texts_in_order(rest).push(last);
        assert forall|i: int, j: int| 0 <= i < j < s.len() implies text_less(s[i], s[j]) by {
            if j < s.len() - 1 {
                assert(text_less(texts_in_order(rest)[i], texts_in_order(rest)[j]));
            } else {
                assert(texts_in_order(rest)[i] == s[i]);
                assert(texts_in_order(rest).to_set().contains(s[i]));
                assert(rest.contains(s[i]));
                assert(s[i] != last);
                if !text_less(s[i], last) {
                    text_less_total(s[i], last);
                    assert(leq(last, s[i]));
                    assert(leq(s[i], last));
                }
            }
        }
        texts_in_order(rest).lemma_push_to_set_commute(last);
        assert(s.to_set() =~= keys);
        assert(texts_increase(s) && s.to_set() == keys);
    }
}

/// The keys of a list of entries.
spec fn keys_of<V>(entries: Seq<(String, V)>) -> Seq<Seq<char>> {
    entries.map_values(|e: (String, V)| e.0@)
}

/// The map of a list of entries.
spec fn map_of<V>(entries: Seq<(String, V)>) -> Map<Seq<char>, V> {
    Map::new(
        |k: Seq<char>| keys_of(entries).contains(k),
        |k: Seq<char>| entries[entry_of(entries, k)].1,
    )
}

/// The position of the entry of a key.
spec fn entry_of<V>(entries: Seq<(String, V)>, k: Seq<char>) -> int {
    choose|i: int| 0 <= i < entries.len() && (#[trigger] entries[i]).0@ == k
}

proof fn map_of_at<V>(entries: Seq<(String, V)>, i: int)
    requires
        texts_increase(keys_of(entries)),
        0 <= i < entries.len(),
    ensures
        map_of(entries).contains_key(entries[i].0@),
        map_of(entries)[entries[i].0@] == entries[i].1,
{
    let k = entries[i].0@;
    assert(keys_of(entries)[i] == k);
    let j = entry_of(entries, k);
    assert(0 <= j < entries.len() && entries[j].0@ == k);
    assert(keys_of(entries)[j] == k);
    text_less_irreflexive(k);
    if j != i {
        assert(text_less(k, k));
    }
}

/// A map from texts to values.
#[derive(Debug, PartialEq, Eq)]
pub struct TextMap<V> {
    entries: Vec<(String, V)>,
}

impl<V> View for TextMap<V> {
    type V = Map<Seq<char>, V>;

    closed spec fn view(&self) -> Map<Seq<char>, V> {
        map_of(self.entries@)
    }
}

impl<V> TextMap<V> {
    #[verifier::type_invariant]
    closed spec fn sorted(self) -> bool {
        texts_increase(keys_of(self.entries@))
    }

    /// The map without entries.
    pub fn new() -> (map: TextMap<V>)
        ensures
            map@ == Map::<Seq<char>, V>::empty(),
    {
        let map = TextMap { entries: Vec::new() };
        assert(map@ =~= Map::<Seq<char>, V>::empty());
        map
    }

    /// The number of entries.
    pub fn len(&self) -> (n: usize)
        ensures
            n == texts_in_order(self@.dom()).len(),
            texts_in_order(self@.dom()).to_set() == self@.dom(),
            (n == 0) == (self@ == Map::<Seq<char>, V>::empty()),
    {
        proof {
            use_type_invariant(self);
            self.keys_are_in_order();
            assert(self@.dom() =~= keys_of(self.entries@).to_set());
            if self.entries@.len() == 0 {
                assert(self@ =~= Map::<Seq<char>, V>::empty());
            } else {
                map_of_at(self.entries@, 0);
            }
        }
        self.entries.len()
    }

    proof fn keys_are_in_order(&self)
        requires
            self.sorted(),
        ensures
            texts_in_order(self@.dom()) == keys_of(self.entries@),
    {
        let keys = keys_of(self.entries@);
        assert(self@.dom() =~= keys.to_set());
        text_order_is_unique(texts_in_order(self@.dom()), keys);
    }

    /// The key at a position in the order of the keys.
    pub fn key_at(&self, i: usize) -> (key: &String)
        requires
            i < texts_in_order(self@.dom()).len(),
        ensures
            key@ == texts_in_order(self@.dom())[i as int],
            self@.contains_key(key@),
    {
        proof {
            use_type_invariant(self);
            self.keys_are_in_order();
            map_of_at(self.entries@, i as int);
        }
        &self.entries[i].0
    }

    /// The value at a position in the order of the keys.
    pub fn value_at(&self, i: usize) -> (value: &V)
        requires
            i < texts_in_order(self@.dom()).len(),
        ensures
            *value == self@[texts_in_order(self@.dom())[i as int]],
    {
        proof {
            use_type_invariant(self);
            self.keys_are_in_order();
            map_of_at(self.entries@, i as int);
        }
        &self.entries[i].1
    }

    /// The first position whose key does not stand before `key`.
    fn position(&self, key: &str) -> (p: usize)
        ensures
            p <= self.entries@.len(),
            forall|i: int| 0 <= i < p ==> text_less(#[trigger] self.entries@[i].0@, key@),
            p < self.entries@.len() ==> !text_less(self.entries@[p as int].0@, key@),
    {
        let mut p: usize = 0;
        while p < self.entries.len() && before(self.entries[p].0.as_str(), key)
            invariant
                p <= self.entries@.len(),
                forall|i: int| 0 <= i < p ==> text_less(#[trigger] self.entries@[i].0@, key@),
            decreases self.entries@.len() - p,
        {
            p = p + 1;
        }
        p
    }

    proof fn absent_where(&self, key: Seq<char>, p: int)
        requires
            self.sorted(),
            0 <= p <= self.entries@.len(),
            forall|i: int| 0 <= i < p ==> text_less(#[trigger] self.entries@[i].0@, key),
            p < self.entries@.len() ==> !text_less(self.entries@[p].0@, key)
                && self.entries@[p].0@ != key,
        ensures
            !self@.contains_key(key),
            forall|i: int|
                p <= i < self.entries@.len() ==> text_less(key, #[trigger] self.entries@[i].0@),
    {
        let keys = keys_of(self.entries@);
        if p < self.entries@.len() {
            text_less_total(keys[p], key);
        }
        assert forall|i: int| p <= i < self.entries@.len() implies text_less(
            key,
            #[trigger] self.entries@[i].0@,
        ) by {
            assert(keys[i] == self.entries@[i].0@);
            if i > p {
                assert(text_less(keys[p], keys[i]));
                text_less_transitive(key, keys[p], keys[i]);
            }
        }
        if keys.contains(key) {
            let i = choose|i: int| 0 <= i < keys.len() && keys[i] == key;
            text_less_irreflexive(key);
            assert(self.entries@[i].0@ == key);
        }
    }

    /// The value of a key.
    pub fn get(&self, key: &str) -> (r: Option<&V>)
        ensures
            match r {
                Some(v) => self@.contains_key(key@) && self@[key@] == *v,
                None => !self@.contains_key(key@),
            },
    {
        proof {
            use_type_invariant(self);
        }
        let p: usize = self.position(key);
        if p < self.entries.len() && same_text(self.entries[p].0.as_str(), key) {
            proof {
                map_of_at(self.entries@, p as int);
            }
            Some(&self.entries[p].1)
        } else {
            proof {
                self.absent_where(key@, p as int);
            }
            None
        }
    }

    /// The map with a key set to a value.
    pub fn with(self, key: String, value: V) -> (map: TextMap<V>)
        ensures
            map@ == self@.insert(key@, value),
    {
        proof {
            use_type_invariant(&self);
        }
        let p: usize = self.position(key.as_str());
        let ghost before_map = self;
        let ghost old_keys = keys_of(self.entries@);
        let replace: bool = p < self.entries.len() && same_text(
            self.entries[p].0.as_str(),
            key.as_str(),
        );
        let ghost k = key@;
        let TextMap { mut entries } = self;
        if replace {
            let ghost was = entries@;
            entries[p] = (key, value);
            proof {
                assert(keys_of(entries@) =~= old_keys);
                let now = map_of(entries@);
                assert forall|x: Seq<char>| now.contains_key(x) implies now[x]
                    == before_map@.insert(k, value)[x] by {
                    let i = choose|i: int| 0 <= i < old_keys.len() && old_keys[i] == x;
                    map_of_at(entries@, i);
                    map_of_at(was, i);
                    if i != p && x == k {
                        text_less_irreflexive(k);
                        assert(old_keys[p as int] == k);
                    }
                    assert(entries@[i].0@ == x);
                    assert(was[i].0@ == x);
                }
                assert(old_keys[p as int] == k);
                assert(now =~= before_map@.insert(k, value));
            }
        } else {
            proof {
                before_map.absent_where(k, p as int);
            }
            let ghost was = entries@;
            entries.insert(p, (key, value));
            proof {
                let keys = keys_of(entries@);
                assert(keys =~= old_keys.insert(p as int, k));
                assert forall|i: int, j: int| 0 <= i < j < keys.len() implies text_less(
                    keys[i],
                    keys[j],
                ) by {
                    if i < p {
                        assert(was[i].0@ == keys[i]);
                    }
                    if j > p {
                        assert(was[j - 1].0@ == keys[j]);
                    }
                    if i < p && j < p {
                        assert(text_less(old_keys[i], old_keys[j]));
                    } else if i < p && j > p {
                        assert(text_less(old_keys[i], old_keys[j - 1]));
                    } else if i > p {
                        assert(text_less(old_keys[i - 1], old_keys[j - 1]));
                    }
                }
                let now = map_of(entries@);
                let then_map = before_map@.insert(k, value);
                assert forall|x: Seq<char>|
                    #![trigger now.dom().contains(x)]
                    #![trigger then_map.dom().contains(x)]
                    now.dom().contains(x) == then_map.dom().contains(x) && (now.dom().contains(x)
                        ==> now[x] == then_map[x]) by {
                    if now.contains_key(x) {
                        let i = choose|i: int| 0 <= i < keys.len() && keys[i] == x;
                        map_of_at(entries@, i);
                        assert(entries@[i].0@ == x);
                        if i < p {
                            map_of_at(was, i);
                            assert(was[i].0@ == x);
                            text_less_irreflexive(k);
                        } else if i > p {
                            map_of_at(was, i - 1);
                            assert(was[i - 1].0@ == x);
                            text_less_irreflexive(k);
                        }
                    }
                    if then_map.contains_key(x) {
                        if x == k {
                            assert(keys[p as int] == k);
                        } else {
                            let i = choose|i: int| 0 <= i < old_keys.len() && old_keys[i] == x;
                            if i < p {
                                assert(keys[i] == x);
                            } else {
                                assert(keys[i + 1] == x);
                            }
                        }
                    }
                }
                assert(now =~= then_map);
            }
        }
        TextMap { entries }
    }
}

/// The texts that a map has as values.
pub open spec fn text_values<K>(map: Map<K, String>) -> Map<K, Seq<char>> {
    map.map_values(|s: String| s@)
}

/// Whether two maps hold the same texts under the same keys.
pub fn same_map(a: &TextMap<String>, b: &TextMap<String>) -> (same: bool)
    ensures
        same == (text_values(a@) == text_values(b@)),
{
    proof {
        use_type_invariant(a);
        use_type_invariant(b);
        a.keys_are_in_order();
        b.keys_are_in_order();
        if text_values(a@) == text_values(b@) {
            assert(a@.dom() =~= text_values(a@).dom());
            assert(b@.dom() =~= text_values(b@).dom());
        }
    }
    if a.entries.len() != b.entries.len() {
        return false;
    }
    let mut i: usize = 0;
    while i < a.entries.len()
        invariant
            a.sorted(),
            b.sorted(),
            i <= a.entries@.len(),
            a.entries@.len() == b.entries@.len(),
            text_values(a@) == text_values(b@) ==> keys_of(a.entries@) == keys_of(b.entries@),
            forall|k: int|
                0 <= k < i ==> (#[trigger] a.entries@[k]).0@ == b.entries@[k].0@
                    && a.entries@[k].1@ == b.entries@[k].1@,
        decreases a.entries@.len() - i,
    {
        let same_key: bool = same_text(a.entries[i].0.as_str(), b.entries[i].0.as_str());
        let same_value: bool = same_text(a.entries[i].1.as_str(), b.entries[i].1.as_str());
        if !(same_key && same_value) {
            proof {
                map_of_at(a.entries@, i as int);
                map_of_at(b.entries@, i as int);
                assert(keys_of(a.entries@)[i as int] == a.entries@[i as int].0@);
                assert(keys_of(b.entries@)[i as int] == b.entries@[i as int].0@);
                if text_values(a@) == text_values(b@) {
                    let k = a.entries@[i as int].0@;
                    assert(text_values(a@)[k] == a.entries@[i as int].1@);
                    assert(text_values(b@)[k] == b.entries@[i as int].1@);
                }
            }
            return false;
        }
        i = i + 1;
    }
    proof {
        assert(keys_of(a.entries@) =~= keys_of(b.entries@));
        assert forall|x: Seq<char>| a@.contains_key(x) implies a@[x]@ == b@[x]@ by {
            let k = choose|k: int| 0 <= k < a.entries@.len() && keys_of(a.entries@)[k] == x;
            map_of_at(a.entries@, k);
            map_of_at(b.entries@, k);
            assert(a.entries@[k].0@ == x);
        }
        assert(text_values(a@) =~= text_values(b@));
    }
    true
}

impl TextMap<String> {
    /// A copy of the map.
    pub fn copy(&self) -> (map: TextMap<String>)
        ensures
            text_values(map@) == text_values(self@),
    {
        let mut map: TextMap<String> = TextMap::new();
        let n: usize = self.len();
        let mut i: usize = 0;
        let ghost keys = texts_in_order(self@.dom());
        proof {
            use_type_invariant(self);
            self.keys_are_in_order();
            assert(text_values(map@) =~= text_values(self@).restrict(keys.take(0).to_set()));
        }
        while i < n
            invariant
                self.sorted(),
                i <= n,
                keys == texts_in_order(self@.dom()),
                keys == keys_of(self.entries@),
                n == keys.len(),
                text_values(map@) == text_values(self@).restrict(keys.take(i as int).to_set()),
            decreases n - i,
        {
            let ghost was = map@;
            map = map.with(self.key_at(i).clone(), self.value_at(i).clone());
            proof {
                let k = keys[i as int];
                assert(keys.take(i + 1) =~= keys.take(i as int).push(k));
                keys.take(i as int).lemma_push_to_set_commute(k);
                assert(keys.take(i + 1).to_set() =~= keys.take(i as int).to_set().insert(k));
                assert(text_values(map@) =~= text_values(was).insert(k, self@[k]@));
                assert(text_values(map@) =~= text_values(self@).restrict(
                    keys.take(i + 1).to_set(),
                ));
            }
            i = i + 1;
        }
        proof {
            assert(keys.take(n as int) =~= keys);
            assert(self@.dom() =~= keys.to_set());
            assert(text_values(map@) =~= text_values(self@));
        }
        map
    }
}

} // verus!
