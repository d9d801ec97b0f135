//! A map from texts to values, kept in a vector in the order of its keys.

use crate::text::{ascending, key_before, lemma_key_order, rank, Rank};
use vstd::prelude::*;

verus! {

/// The map that holds `values[i]` under `keys[i]`.
pub open spec fn map_of<V>(keys: Seq<Seq<char>>, values: Seq<V>) -> Map<Seq<char>, V> {
    Map::new(|k: Seq<char>| keys.contains(k), |k: Seq<char>| values[keys.index_of(k)])
}

/// Under ascending keys every place of the vector is an entry of the map.
pub proof fn lemma_map_of_at<V>(keys: Seq<Seq<char>>, values: Seq<V>, i: int)
    requires
        ascending(keys),
        keys.len() == values.len(),
        0 <= i < keys.len(),
    ensures
        map_of(keys, values).contains_key(keys[i]),
        map_of(keys, values)[keys[i]] == values[i],
{
    let j = keys.index_of(keys[i]);
    lemma_key_order(keys[i], keys[j], keys[i]);
}

/// A map with the view of each value in place of the value.
pub open spec fn texts_of<V: View>(map: Map<Seq<char>, V>) -> Map<Seq<char>, V::V> {
    map.map_values(|v: V| v@)
}

/// A new entry shows in the views as the view of its value.
pub proof fn lemma_texts_insert<V: View>(map: Map<Seq<char>, V>, key: Seq<char>, value: V)
    ensures
        texts_of(map.insert(key, value)) == texts_of(map).insert(key, value@),
{
    assert(texts_of(map.insert(key, value)) =~= texts_of(map).insert(key, value@));
}

/// A map without entries has no views.
pub proof fn lemma_texts_empty<V: View>()
    ensures
        texts_of(Map::<Seq<char>, V>::empty()) == Map::<Seq<char>, V::V>::empty(),
{
    assert(texts_of(Map::<Seq<char>, V>::empty()) =~= Map::<Seq<char>, V::V>::empty());
}

/// The keys of some entries, in their order.
spec fn keys_of<V>(entries: Seq<(String, V)>) -> Seq<Seq<char>> {
    Seq::new(entries.len(), |i: int| entries[i].0@)
}

/// The values of some entries, in their order.
spec fn values_of<V>(entries: Seq<(String, V)>) -> Seq<V> {
    Seq::new(entries.len(), |i: int| entries[i].1)
}

/// A map keyed by text. Its entries stand in the order of their keys, so
/// that a key is found by bisection and the entries are walked in order.
#[derive(Debug)]
pub struct StrMap<V> {
    entries: Vec<(String, V)>,
}

impl<V> StrMap<V> {
    #[verifier::type_invariant]
    spec fn sorted(&self) -> bool {
        ascending(self.keys())
    }

    /// The keys, in ascending order.
    pub closed spec fn keys(&self) -> Seq<Seq<char>> {
        keys_of(self.entries@)
    }

    /// The values, each at the place of its key.
    pub closed spec fn values(&self) -> Seq<V> {
        values_of(self.entries@)
    }

    /// The map that the entries make.
    pub open spec fn view(&self) -> Map<Seq<char>, V> {
        map_of(self.keys(), self.values())
    }

    /// A map without entries.
    pub fn new() -> (r: Self)
        ensures
            r.keys() == Seq::<Seq<char>>::empty(),
            r.values() == Seq::<V>::empty(),
            r@ == Map::<Seq<char>, V>::empty(),
    {
        let r = StrMap { entries: Vec::new() };
        proof {
            assert(r.keys() =~= Seq::<Seq<char>>::empty());
            assert(r.values() =~= Seq::<V>::empty());
            assert(r@ =~= Map::<Seq<char>, V>::empty());
        }
        r
    }

    /// The number of entries.
    pub fn len(&self) -> (n: usize)
        ensures
            n == self.keys().len(),
            n == self.values().len(),
            ascending(self.keys()),
    {
        proof {
            use_type_invariant(self);
        }
        self.entries.len()
    }

    /// The key at place `i` of the order.
    pub fn key_at(&self, i: usize) -> (r: &str)
        requires
            i < self.keys().len(),
        ensures
            r@ == self.keys()[i as int],
            self@.contains_key(r@),
    {
        proof {
            use_type_invariant(self);
            lemma_map_of_at(self.keys(), self.values(), i as int);
        }
        self.entries[i].0.as_str()
    }

    /// The value at place `i` of the order.
    pub fn value_at(&self, i: usize) -> (r: &V)
        requires
            i < self.keys().len(),
        ensures
            *r == self.values()[i as int],
            *r == self@[self.keys()[i as int]],
    {
        proof {
            use_type_invariant(self);
            lemma_map_of_at(self.keys(), self.values(), i as int);
        }
        &self.entries[i].1
    }

    /// The keys, in ascending order.
    pub fn key_list(&self) -> (r: Vec<&str>)
        ensures
            r@.len() == self.keys().len(),
            forall|i: int| 0 <= i < r@.len() ==> (#[trigger] r@[i])@ == self.keys()[i],
            ascending(self.keys()),
            self.keys().len() == self.values().len(),
    {
        let n = self.len();
        let mut r: Vec<&str> = Vec::new();
        let mut i: usize = 0;
        while i < n
            invariant
                i <= n,
                n == self.keys().len(),
                r@.len() == i,
                forall|j: int| 0 <= j < i ==> (#[trigger] r@[j])@ == self.keys()[j],
            decreases n - i,
        {
            r.push(self.key_at(i));
            i += 1;
        }
        r
    }

    /// The place of a key, or the place where it would be inserted.
    fn find(&self, key: &str) -> (r: (bool, usize))
        ensures
            r.1 <= self.keys().len(),
            r.0 ==> r.1 < self.keys().len() && self.keys()[r.1 as int] == key@,
            !r.0 ==> !self.keys().contains(key@),
            !r.0 ==> forall|i: int| 0 <= i < r.1 ==> key_before(#[trigger] self.keys()[i], key@),
            !r.0 ==> forall|i: int|
                r.1 <= i < self.keys().len() ==> key_before(key@, #[trigger] self.keys()[i]),
    {
        proof {
            use_type_invariant(self);
        }
        let ghost keys = self.keys();
        let mut lo: usize = 0;
        let mut hi: usize = self.entries.len();
        while lo < hi
            invariant
                lo <= hi <= keys.len(),
                keys == self.keys(),
                ascending(keys),
                forall|i: int| 0 <= i < lo ==> key_before(#[trigger] keys[i], key@),
                forall|i: int| hi <= i < keys.len() ==> key_before(key@, #[trigger] keys[i]),
            decreases hi - lo,
        {
            let mid = lo + (hi - lo) / 2;
            match rank(self.entries[mid].0.as_str(), key) {
                Rank::Same => {
                    return (true, mid);
                },
                Rank::Before => {
                    assert forall|i: int| 0 <= i < mid + 1 implies key_before(
                        #[trigger] keys[i],
                        key@,
                    ) by {
                        lemma_key_order(keys[i], keys[mid as int], key@);
                    }
                    lo = mid + 1;
                },
                Rank::After => {
                    assert forall|i: int| mid <= i < keys.len() implies key_before(
                        key@,
                        #[trigger] keys[i],
                    ) by {
                        lemma_key_order(key@, keys[mid as int], keys[i]);
                    }
                    hi = mid;
                },
            }
        }
        proof {
            if keys.contains(key@) {
                let i = keys.index_of(key@);
                lemma_key_order(key@, key@, key@);
            }
        }
        (false, lo)
    }

    /// The value under a key, if the map holds the key.
    pub fn get(&self, key: &str) -> (r: Option<&V>)
        ensures
            match r {
                Some(v) => self@.contains_key(key@) && *v == self@[key@],
                None => !self@.contains_key(key@),
            },
    {
        proof {
            use_type_invariant(self);
        }
        let (found, at) = self.find(key);
        if found {
            proof {
                lemma_map_of_at(self.keys(), self.values(), at as int);
            }
            Some(&self.entries[at].1)
        } else {
            None
        }
    }

    /// Whether the map holds a key.
    pub fn contains_key(&self, key: &str) -> (r: bool)
        ensures
            r == self@.contains_key(key@),
    {
        self.find(key).0
    }

    /// Puts a value under a key, in place of the value that the key had.
    pub fn insert(&mut self, key: String, value: V)
        ensures
            final(self)@ == old(self)@.insert(key@, value),
            ascending(final(self).keys()),
    {
        proof {
            use_type_invariant(&*self);
        }
        let ghost keys = self.keys();
        let ghost values = self.values();
        let (found, at) = self.find(key.as_str());
        let ghost k = key@;
        let mut entries = Vec::new();
        core::mem::swap(&mut entries, &mut self.entries);
        if found {
            entries[at] = (key, value);
        } else {
            entries.insert(at, (key, value));
        }
        let ghost after = keys_of(entries@);
        let ghost vals = values_of(entries@);
        proof {
            if found {
                assert(after =~= keys);
                assert(vals =~= values.update(at as int, value));
                assert forall|q: Seq<char>| #[trigger]
                    map_of(after, vals).contains_key(q) implies map_of(after, vals)[q] == map_of(
                    keys,
                    values,
                ).insert(k, value)[q] by {
                    let j = after.index_of(q);
                    lemma_key_order(after[j], after[at as int], q);
                }
            } else {
                assert(after =~= keys.insert(at as int, k));
                assert(vals =~= values.insert(at as int, value));
                assert forall|i: int, j: int| 0 <= i < j < after.len() implies key_before(
                    after[i],
                    after[j],
                ) by {
                    if i < at && j > at {
                        lemma_key_order(after[i], k, after[j]);
                    }
                }
                assert forall|q: Seq<char>|
                    map_of(after, vals).contains_key(q) == map_of(keys, values).insert(
                        k,
                        value,
                    ).contains_key(q) by {
                    if keys.contains(q) {
                        let j = keys.index_of(q);
                        if j < at {
                            assert(after[j] == q);
                        } else {
                            assert(after[j + 1] == q);
                        }
                    }
                    if q == k {
                        assert(after[at as int] == q);
                    }
                    if after.contains(q) {
                        let j = after.index_of(q);
                        if j < at {
                            assert(keys[j] == q);
                        } else if j > at {
                            assert(keys[j - 1] == q);
                        }
                    }
                }
                assert forall|q: Seq<char>| #[trigger]
                    map_of(after, vals).contains_key(q) implies map_of(after, vals)[q] == map_of(
                    keys,
                    values,
                ).insert(k, value)[q] by {
                    let j = after.index_of(q);
                    lemma_map_of_at(after, vals, j);
                    if j < at {
                        lemma_map_of_at(keys, values, j);
                    } else if j > at {
                        lemma_map_of_at(keys, values, j - 1);
                    }
                }
            }
            assert(map_of(after, vals) =~= map_of(keys, values).insert(k, value));
        }
        self.entries = entries;
    }
}

impl<V: View> StrMap<V> {
    /// The map from each key to the view of its value.
    pub open spec fn texts(&self) -> Map<Seq<char>, V::V> {
        texts_of(self@)
    }
}

impl StrMap<String> {
    /// A map with the same keys and the same texts under them.
    pub fn duplicate(&self) -> (r: StrMap<String>)
        ensures
            r.texts() == self.texts(),
    {
        let n = self.len();
        let ghost keys = self.keys();
        let ghost values = self.values();
        let mut r: StrMap<String> = StrMap::new();
        let mut i: usize = 0;
        while i < n
            invariant
                i <= n,
                n == keys.len(),
                n == values.len(),
                keys == self.keys(),
                values == self.values(),
                ascending(keys),
                forall|k: Seq<char>|
                    r@.contains_key(k) <==> exists|j: int| 0 <= j < i && #[trigger] keys[j] == k,
                forall|j: int| 0 <= j < i ==> (#[trigger] r@[keys[j]])@ == values[j]@,
            decreases n - i,
        {
            let key = String::from_str(self.key_at(i));
            let value = self.value_at(i).clone();
            let ghost before = r@;
            r.insert(key, value);
            proof {
                assert forall|k: Seq<char>| r@.contains_key(k) implies exists|j: int|
                    0 <= j < i + 1 && #[trigger] keys[j] == k by {
                    if k == keys[i as int] {
                    } else {
                        assert(before.contains_key(k));
                        let j = choose|j: int| 0 <= j < i && #[trigger] keys[j] == k;
                        assert(0 <= j < i + 1 && keys[j] == k);
                    }
                }
                assert forall|j: int| 0 <= j < i + 1 implies (#[trigger] r@[keys[j]])@
                    == values[j]@ by {
                    if j < i {
                        lemma_key_order(keys[j], keys[i as int], keys[j]);
                    }
                }
            }
            i += 1;
        }
        proof {
            assert forall|k: Seq<char>| r@.contains_key(k) == self@.contains_key(k) by {
                if self@.contains_key(k) {
                    let j = keys.index_of(k);
                    assert(0 <= j < n && keys[j] == k);
                }
            }
            assert forall|k: Seq<char>| #[trigger] r@.contains_key(k) implies r@[k]@
                == self@[k]@ by {
                let j = choose|j: int| 0 <= j < n && #[trigger] keys[j] == k;
                lemma_map_of_at(keys, values, j);
            }
            assert(r.texts() =~= self.texts());
        }
        r
    }
}

} // verus!
