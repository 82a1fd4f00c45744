//! A map kept as a list of entries, in the order in which the keys came.
//!
//! The model of a map is the sequence of its entries. A key is looked up at
//! its first place in the sequence; the operations of [`ListMap`] never give
//! a key a second place.

use crate::value::Value;
use vstd::prelude::*;
use vstd::std_specs::cmp::PartialEqSpecImpl;

verus! {

/// Whether some entry of `entries` has the key `key`.
pub open spec fn has_key<K, V>(entries: Seq<(K, V)>, key: K) -> bool {
    exists|i: int| 0 <= i < entries.len() && (#[trigger] entries[i]).0 == key
}

/// Whether `i` is the first place of `key` in `entries`.
pub open spec fn first_at<K, V>(entries: Seq<(K, V)>, key: K, i: int) -> bool {
    &&& 0 <= i < entries.len()
    &&& entries[i].0 == key
    &&& forall|j: int| 0 <= j < i ==> (#[trigger] entries[j]).0 != key
}

/// The first place of `key` in `entries`, where it has one.
pub open spec fn position<K, V>(entries: Seq<(K, V)>, key: K) -> int {
    choose|i: int| first_at(entries, key, i)
}

/// The value that `entries` holds for `key`.
pub open spec fn lookup<K, V>(entries: Seq<(K, V)>, key: K) -> Option<V> {
    if has_key(entries, key) {
        Some(entries[position(entries, key)].1)
    } else {
        None
    }
}

/// `entries` with `value` as the value of `key`: in the place of the old
/// value, or at the end where `key` is new.
pub open spec fn put<K, V>(entries: Seq<(K, V)>, key: K, value: V) -> Seq<(K, V)> {
    if has_key(entries, key) {
        entries.update(position(entries, key), (key, value))
    } else {
        entries.push((key, value))
    }
}

/// `entries` without the entry of `key`.
pub open spec fn delete<K, V>(entries: Seq<(K, V)>, key: K) -> Seq<(K, V)> {
    if has_key(entries, key) {
        entries.remove(position(entries, key))
    } else {
        entries
    }
}

/// Whether no key has two places in `entries`.
pub open spec fn distinct_keys<K, V>(entries: Seq<(K, V)>) -> bool {
    forall|i: int, j: int|
        0 <= i < j < entries.len() ==> (#[trigger] entries[i]).0 != (#[trigger] entries[j]).0
}

/// The mathematical map that `entries` stands for.
pub open spec fn as_map<K, V>(entries: Seq<(K, V)>) -> Map<K, V> {
    Map::new(|key: K| has_key(entries, key), |key: K| entries[position(entries, key)].1)
}

/// A key that occurs at `i` has a first place at or before `i`.
proof fn lemma_first_place_exists<K, V>(entries: Seq<(K, V)>, key: K, i: int)
    requires
        0 <= i < entries.len(),
        entries[i].0 == key,
    ensures
        exists|j: int| first_at(entries, key, j),
    decreases i,
{
    if forall|j: int| 0 <= j < i ==> (#[trigger] entries[j]).0 != key {
        assert(first_at(entries, key, i));
    } else {
        let j = choose|j: int| 0 <= j < i && (#[trigger] entries[j]).0 == key;
        lemma_first_place_exists(entries, key, j);
    }
}

/// A key of `entries` has a first place, and `position` is that place.
pub proof fn lemma_position<K, V>(entries: Seq<(K, V)>, key: K)
    requires
        has_key(entries, key),
    ensures
        first_at(entries, key, position(entries, key)),
{
    let i = choose|i: int| 0 <= i < entries.len() && (#[trigger] entries[i]).0 == key;
    lemma_first_place_exists(entries, key, i);
}

/// The first place of a key is `position`.
pub proof fn lemma_first_is_position<K, V>(entries: Seq<(K, V)>, key: K, i: int)
    requires
        first_at(entries, key, i),
    ensures
        has_key(entries, key),
        position(entries, key) == i,
{
    let p = position(entries, key);
    assert(first_at(entries, key, p));
    if p < i {
        assert(entries[p].0 != key);
    }
    if i < p {
        assert(entries[i].0 != key);
    }
}

/// Where no key has two places, every place of a key is its first.
pub proof fn lemma_place_is_position<K, V>(entries: Seq<(K, V)>, i: int)
    requires
        distinct_keys(entries),
        0 <= i < entries.len(),
    ensures
        has_key(entries, entries[i].0),
        position(entries, entries[i].0) == i,
        lookup(entries, entries[i].0) == Some(entries[i].1),
{
    assert forall|j: int| 0 <= j < i implies (#[trigger] entries[j]).0 != entries[i].0 by {}
    lemma_first_is_position(entries, entries[i].0, i);
}

/// What `put` holds: the new value for its key, and for every other key what
/// there was.
pub proof fn lemma_put<K, V>(entries: Seq<(K, V)>, key: K, value: V, other: K)
    ensures
        has_key(put(entries, key, value), other) == (other == key || has_key(entries, other)),
        lookup(put(entries, key, value), other) == if other == key {
            Some(value)
        } else {
            lookup(entries, other)
        },
        distinct_keys(entries) ==> distinct_keys(put(entries, key, value)),
{
    let after = put(entries, key, value);
    if has_key(entries, key) {
        lemma_position(entries, key);
        let place = position(entries, key);
        assert(after.len() == entries.len());
        assert forall|i: int| 0 <= i < entries.len() implies (#[trigger] after[i]).0
            == entries[i].0 by {}
        assert(after[place].0 == key);
        lemma_first_is_position(after, key, place);
        if other != key {
            if has_key(entries, other) {
                lemma_position(entries, other);
                let there = position(entries, other);
                assert(after[there] == entries[there]);
                lemma_first_is_position(after, other, there);
            }
            if has_key(after, other) {
                let i = choose|i: int| 0 <= i < after.len() && (#[trigger] after[i]).0 == other;
                assert(entries[i].0 == other);
            }
        }
        if distinct_keys(entries) {
            assert forall|i: int, j: int| 0 <= i < j < after.len() implies (#[trigger] after[i]).0
                != (#[trigger] after[j]).0 by {
                assert(entries[i].0 != entries[j].0);
            }
        }
    } else {
        let end = entries.len() as int;
        assert(after[end].0 == key);
        assert forall|j: int| 0 <= j < end implies (#[trigger] after[j]).0 != key by {
            assert(entries[j].0 == after[j].0);
        }
        lemma_first_is_position(after, key, end);
        if other != key {
            if has_key(entries, other) {
                lemma_position(entries, other);
                let there = position(entries, other);
                assert(after[there] == entries[there]);
                assert forall|j: int| 0 <= j < there implies (#[trigger] after[j]).0 != other by {
                    assert(entries[j].0 == after[j].0);
                }
                lemma_first_is_position(after, other, there);
            }
            if has_key(after, other) {
                let i = choose|i: int| 0 <= i < after.len() && (#[trigger] after[i]).0 == other;
                assert(entries[i].0 == other);
            }
        }
        if distinct_keys(entries) {
            assert forall|i: int, j: int| 0 <= i < j < after.len() implies (#[trigger] after[i]).0
                != (#[trigger] after[j]).0 by {
                if j < end {
                    assert(entries[i].0 != entries[j].0);
                } else {
                    assert(entries[i].0 == after[i].0);
                }
            }
        }
    }
}

/// What `delete` holds, where no key has two places: nothing for its key, and
/// for every other key what there was.
pub proof fn lemma_delete<K, V>(entries: Seq<(K, V)>, key: K, other: K)
    requires
        distinct_keys(entries),
    ensures
        has_key(delete(entries, key), other) == (other != key && has_key(entries, other)),
        lookup(delete(entries, key), other) == if other == key {
            None
        } else {
            lookup(entries, other)
        },
        distinct_keys(delete(entries, key)),
{
    let after = delete(entries, key);
    if has_key(entries, key) {
        lemma_position(entries, key);
        let place = position(entries, key);
        assert forall|i: int| 0 <= i < after.len() implies (#[trigger] after[i]) == entries[if i
            < place {
            i
        } else {
            i + 1
        }] by {}
        assert forall|i: int, j: int| 0 <= i < j < after.len() implies (#[trigger] after[i]).0
            != (#[trigger] after[j]).0 by {
            let i0 = if i < place { i } else { i + 1 };
            let j0 = if j < place { j } else { j + 1 };
            assert(entries[i0].0 != entries[j0].0);
        }
        if has_key(after, key) {
            let i = choose|i: int| 0 <= i < after.len() && (#[trigger] after[i]).0 == key;
            let i0 = if i < place { i } else { i + 1 };
            assert(entries[i0].0 == key);
            if i0 < place {
                assert(entries[i0].0 != entries[place].0);
            } else {
                assert(entries[place].0 != entries[i0].0);
            }
        }
        if other != key {
            if has_key(entries, other) {
                lemma_position(entries, other);
                let there = position(entries, other);
                let moved = if there < place { there } else { there - 1 };
                assert(after[moved] == entries[there]);
                lemma_place_is_position(after, moved);
            }
            if has_key(after, other) {
                let i = choose|i: int| 0 <= i < after.len() && (#[trigger] after[i]).0 == other;
                let i0 = if i < place { i } else { i + 1 };
                assert(entries[i0].0 == other);
            }
        }
    }
}

/// Entries with the keys of entries that have no key twice have no key
/// twice.
pub proof fn lemma_same_keys<K, V>(entries: Seq<(K, V)>, others: Seq<(K, V)>)
    requires
        distinct_keys(entries),
        others.len() == entries.len(),
        forall|i: int| 0 <= i < entries.len() ==> (#[trigger] others[i]).0 == entries[i].0,
    ensures
        distinct_keys(others),
{
    assert forall|i: int, j: int| 0 <= i < j < others.len() implies (#[trigger] others[i]).0
        != (#[trigger] others[j]).0 by {
        assert(entries[i].0 != entries[j].0);
    }
}

/// A map from `K` to `V` that remembers the order in which its keys came.
#[derive(Debug)]
pub struct ListMap<K: Value, V: Value> {
    entries: Vec<(K, V)>,
}

impl<K: Value, V: Value> DeepView for ListMap<K, V> {
    type V = Seq<(K::V, V::V)>;

    closed spec fn deep_view(&self) -> Seq<(K::V, V::V)> {
        self.entries.deep_view()
    }
}

impl<K: Value, V: Value> View for ListMap<K, V> {
    type V = Seq<(K::V, V::V)>;

    open spec fn view(&self) -> Seq<(K::V, V::V)> {
        self.deep_view()
    }
}

impl<K: Value, V: Value> ListMap<K, V> {
    /// What holds of every map: no key has two entries.
    #[verifier::type_invariant]
    pub open spec fn keys_are_distinct(self) -> bool {
        distinct_keys(self.deep_view())
    }

    /// The empty map.
    pub fn new() -> (map: Self)
        ensures
            map@ == Seq::<(K::V, V::V)>::empty(),
    {
        let map = ListMap { entries: Vec::new() };
        assert(map.entries.deep_view() =~= Seq::<(K::V, V::V)>::empty());
        map
    }

    /// The number of entries.
    pub fn len(&self) -> (n: usize)
        ensures
            n == self@.len(),
    {
        self.entries.len()
    }

    /// The key of the entry at `i`.
    pub fn key(&self, i: usize) -> (key: &K)
        requires
            i < self@.len(),
        ensures
            key.deep_view() == self@[i as int].0,
    {
        &self.entries[i].0
    }

    /// The value of the entry at `i`.
    pub fn value(&self, i: usize) -> (value: &V)
        requires
            i < self@.len(),
        ensures
            value.deep_view() == self@[i as int].1,
    {
        &self.entries[i].1
    }

    /// The place of `key`, if the map holds it.
    pub fn find(&self, key: &K) -> (found: Option<usize>)
        ensures
            match found {
                Some(i) => has_key(self@, key.deep_view()) && i == position(
                    self@,
                    key.deep_view(),
                ),
                None => !has_key(self@, key.deep_view()),
            },
    {
        let mut i: usize = 0;
        while i < self.entries.len()
            invariant
                i <= self.entries.len(),
                forall|j: int| 0 <= j < i ==> (#[trigger] self@[j]).0 != key.deep_view(),
            decreases self.entries.len() - i,
        {
            if self.entries[i].0.same(key) {
                proof {
                    lemma_first_is_position(self@, key.deep_view(), i as int);
                }
                return Some(i);
            }
            i += 1;
        }
        None
    }

    /// Whether the map holds `key`.
    pub fn contains_key(&self, key: &K) -> (held: bool)
        ensures
            held == has_key(self@, key.deep_view()),
    {
        self.find(key).is_some()
    }

    /// The value of `key`, if the map holds it.
    pub fn get(&self, key: &K) -> (value: Option<&V>)
        ensures
            match value {
                Some(v) => lookup(self@, key.deep_view()) == Some(v.deep_view()),
                None => lookup(self@, key.deep_view()) is None,
            },
    {
        match self.find(key) {
            Some(i) => {
                proof {
                    lemma_position(self@, key.deep_view());
                }
                Some(&self.entries[i].1)
            },
            None => None,
        }
    }

    /// Gives `key` the value `value`. A key that the map holds keeps its
    /// place; a new key goes to the end.
    pub fn insert(&mut self, key: K, value: V)
        ensures
            final(self)@ == put(old(self)@, key.deep_view(), value.deep_view()),
    {
        proof {
            use_type_invariant(&*self);
            lemma_put(self@, key.deep_view(), value.deep_view(), key.deep_view());
        }
        let found = self.find(&key);
        let mut entries: Vec<(K, V)> = Vec::new();
        std::mem::swap(&mut entries, &mut self.entries);
        match found {
            Some(i) => {
                proof {
                    lemma_position(old(self)@, key.deep_view());
                }
                entries[i] = (key, value);
            },
            None => {
                entries.push((key, value));
            },
        }
        assert(entries.deep_view() =~= put(old(self)@, key.deep_view(), value.deep_view()));
        self.entries = entries;
    }

    /// Replaces the value of the entry at `i`.
    pub fn set_value(&mut self, i: usize, value: V)
        requires
            i < old(self)@.len(),
        ensures
            final(self)@ == old(self)@.update(i as int, (old(self)@[i as int].0, value.deep_view())),
    {
        proof {
            use_type_invariant(&*self);
        }
        let mut entries: Vec<(K, V)> = Vec::new();
        std::mem::swap(&mut entries, &mut self.entries);
        entries[i].1 = value;
        proof {
            let after = old(self)@.update(i as int, (old(self)@[i as int].0, value.deep_view()));
            assert(entries.deep_view() =~= after);
            lemma_same_keys(old(self)@, after);
        }
        self.entries = entries;
    }

    /// Takes the entry of `key` out of the map.
    pub fn remove(&mut self, key: &K)
        ensures
            final(self)@ == delete(old(self)@, key.deep_view()),
    {
        proof {
            use_type_invariant(&*self);
            lemma_delete(self@, key.deep_view(), key.deep_view());
        }
        match self.find(key) {
            Some(i) => {
                proof {
                    lemma_position(self@, key.deep_view());
                }
                let mut entries: Vec<(K, V)> = Vec::new();
                std::mem::swap(&mut entries, &mut self.entries);
                entries.remove(i);
                assert(entries.deep_view() =~= delete(old(self)@, key.deep_view()));
                self.entries = entries;
            },
            None => {},
        }
    }
}

impl<K: Value, V: Value> Clone for ListMap<K, V> {
    fn clone(&self) -> (copy: Self)
        ensures
            copy@ == self@,
    {
        proof {
            use_type_invariant(self);
        }
        let mut entries: Vec<(K, V)> = Vec::new();
        let mut i: usize = 0;
        while i < self.entries.len()
            invariant
                i <= self.entries.len(),
                entries.len() == i,
                forall|j: int| 0 <= j < i ==> entries[j].deep_view() == self.entries[j].deep_view(),
            decreases self.entries.len() - i,
        {
            entries.push((self.entries[i].0.duplicate(), self.entries[i].1.duplicate()));
            i += 1;
        }
        assert(entries.deep_view() =~= self.entries.deep_view());
        ListMap { entries }
    }
}

impl<K: Value, V: Value> ListMap<K, V> {
    /// Whether `other` has, for every key of this map, the value that this
    /// map has for it.
    fn within(&self, other: &Self) -> (all: bool)
        ensures
            all == forall|key: K::V|
                has_key(self@, key) ==> #[trigger] lookup(other@, key) == lookup(self@, key),
    {
        let mut i: usize = 0;
        while i < self.entries.len()
            invariant
                i <= self.entries.len(),
                forall|j: int|
                    0 <= j < i ==> lookup(other@, (#[trigger] self@[j]).0) == lookup(
                        self@,
                        self@[j].0,
                    ),
            decreases self.entries.len() - i,
        {
            let key = &self.entries[i].0;
            assert(self@[i as int].0 == key.deep_view());
            let alike = match (self.get(key), other.get(key)) {
                (Some(mine), Some(theirs)) => mine.same(theirs),
                (None, None) => true,
                _ => false,
            };
            if !alike {
                assert(has_key(self@, key.deep_view()));
                return false;
            }
            i += 1;
        }
        assert forall|key: K::V| has_key(self@, key) implies #[trigger] lookup(other@, key)
            == lookup(self@, key) by {
            let j = choose|j: int| 0 <= j < self@.len() && (#[trigger] self@[j]).0 == key;
            assert(lookup(other@, self@[j].0) == lookup(self@, self@[j].0));
        }
        true
    }

    /// Whether the two maps hold the same values for the same keys, in
    /// whatever order.
    pub fn same_entries(&self, other: &Self) -> (alike: bool)
        ensures
            alike == (as_map(self@) == as_map(other@)),
    {
        let alike = self.within(other) && other.within(self);
        proof {
            if alike {
                assert forall|key: K::V| has_key(self@, key) == has_key(other@, key) by {
                    if has_key(self@, key) {
                        assert(lookup(other@, key) == lookup(self@, key));
                    }
                    if has_key(other@, key) {
                        assert(lookup(self@, key) == lookup(other@, key));
                    }
                }
                assert forall|key: K::V| has_key(self@, key) implies #[trigger] as_map(
                    self@,
                )[key] == as_map(other@)[key] by {
                    assert(lookup(other@, key) == lookup(self@, key));
                }
                assert(as_map(self@) =~= as_map(other@));
            }
            if as_map(self@) == as_map(other@) {
                assert forall|key: K::V|
                    has_key(self@, key) == has_key(other@, key) && (has_key(self@, key)
                        ==> #[trigger] lookup(other@, key) == lookup(self@, key)) by {
                    assert(as_map(self@).dom().contains(key) == as_map(other@).dom().contains(
                        key,
                    ));
                    if has_key(self@, key) {
                        assert(as_map(self@)[key] == as_map(other@)[key]);
                    }
                }
            }
        }
        alike
    }
}

impl<K: Value, V: Value> PartialEq for ListMap<K, V> {
    fn eq(&self, other: &Self) -> (alike: bool) {
        self.same_entries(other)
    }
}

impl<K: Value, V: Value> PartialEqSpecImpl for ListMap<K, V> {
    open spec fn obeys_eq_spec() -> bool {
        true
    }

    open spec fn eq_spec(&self, other: &Self) -> bool {
        as_map(self@) == as_map(other@)
    }
}

impl<K: Value, V: Value> Eq for ListMap<K, V> {

}

impl<K: Value, T: Value> ListMap<K, Vec<T>> {
    /// Puts `item` at the end of the list at `i`.
    pub fn push_value(&mut self, i: usize, item: T)
        requires
            i < old(self)@.len(),
        ensures
            final(self)@ == old(self)@.update(
                i as int,
                (old(self)@[i as int].0, old(self)@[i as int].1.push(item.deep_view())),
            ),
    {
        proof {
            use_type_invariant(&*self);
        }
        let mut entries: Vec<(K, Vec<T>)> = Vec::new();
        std::mem::swap(&mut entries, &mut self.entries);
        entries[i].1.push(item);
        proof {
            let after = old(self)@.update(
                i as int,
                (old(self)@[i as int].0, old(self)@[i as int].1.push(item.deep_view())),
            );
            assert(entries.deep_view()[i as int].1 =~= old(self)@[i as int].1.push(
                item.deep_view(),
            ));
            assert(entries.deep_view() =~= after);
            lemma_same_keys(old(self)@, after);
        }
        self.entries = entries;
    }
}

} // verus!
