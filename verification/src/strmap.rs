//! A small map keyed by strings that remembers insertion order.

use vstd::prelude::*;
use crate::text::str_eq;

verus! {

/// The map that a list of distinct keys and a list of values stand for.
pub open spec fn map_of<V>(keys: Seq<Seq<char>>, values: Seq<V>) -> Map<Seq<char>, V> {
    Map::new(|k: Seq<char>| keys.contains(k), |k: Seq<char>| values[keys.index_of(k)])
}

/// Map from string keys to values. No key occurs twice, and keys stay in
/// the order in which they were first inserted.
#[derive(Debug)]
pub struct StrMap<V> {
    keys: Vec<String>,
    values: Vec<V>,
}

impl<V> View for StrMap<V> {
    type V = Map<Seq<char>, V>;

    open spec fn view(&self) -> Map<Seq<char>, V> {
        map_of(self.keys(), self.values())
    }
}

impl<V> StrMap<V> {
    #[verifier::type_invariant]
    spec fn inv(self) -> bool {
        &&& self.keys@.len() == self.values@.len()
        &&& forall|i: int, j: int|
            0 <= i < j < self.keys@.len() ==> self.keys@[i]@ != self.keys@[j]@
    }

    /// The keys in insertion order.
    pub closed spec fn keys(&self) -> Seq<Seq<char>> {
        self.keys@.map_values(|k: String| k@)
    }

    /// The values, in the order of their keys.
    pub closed spec fn values(&self) -> Seq<V> {
        self.values@
    }

    /// An empty map.
    pub fn new() -> (m: Self)
        ensures
            m.keys() == Seq::<Seq<char>>::empty(),
            m.values() == Seq::<V>::empty(),
            m@ == Map::<Seq<char>, V>::empty(),
    {
        let m = StrMap { keys: Vec::new(), values: Vec::new() };
        assert(m.keys() =~= Seq::<Seq<char>>::empty());
        assert(m@ =~= Map::<Seq<char>, V>::empty());
        m
    }

    /// Number of entries.
    pub fn len(&self) -> (n: usize)
        ensures
            n == self.keys().len(),
            self.keys().len() == self.values().len(),
            self.keys().no_duplicates(),
    {
        proof {
            use_type_invariant(self);
        }
        self.keys.len()
    }

    /// Index of `key` among the keys.
    pub fn position(&self, key: &str) -> (r: Option<usize>)
        ensures
            match r {
                Some(i) => i < self.keys().len() && self.keys()[i as int] == key@,
                None => !self.keys().contains(key@),
            },
            self.keys().len() == self.values().len(),
            self.keys().no_duplicates(),
    {
        proof {
            use_type_invariant(self);
        }
        let mut i: usize = 0;
        while i < self.keys.len()
            invariant
                i <= self.keys@.len(),
                forall|j: int| 0 <= j < i ==> self.keys()[j] != key@,
                self.keys().len() == self.keys@.len(),
                self.keys().len() == self.values().len(),
                self.keys().no_duplicates(),
            decreases self.keys@.len() - i,
        {
            if str_eq(self.keys[i].as_str(), key) {
                return Some(i);
            }
            i += 1;
        }
        None
    }

    /// The key at position `i`.
    pub fn key_at(&self, i: usize) -> (k: &String)
        requires
            i < self.keys().len(),
        ensures
            k@ == self.keys()[i as int],
    {
        &self.keys[i]
    }

    /// The value at position `i`.
    pub fn value_at(&self, i: usize) -> (v: &V)
        requires
            i < self.keys().len(),
        ensures
            *v == self.values()[i as int],
            self.keys().len() == self.values().len(),
            self.keys().no_duplicates(),
            self@.contains_key(self.keys()[i as int]),
            self@[self.keys()[i as int]] == *v,
    {
        proof {
            use_type_invariant(self);
            lemma_map_of_at(self.keys(), self.values(), i as int);
        }
        &self.values[i]
    }

    /// Whether `key` has a value.
    pub fn contains_key(&self, key: &str) -> (b: bool)
        ensures
            b == self@.contains_key(key@),
    {
        self.position(key).is_some()
    }

    /// The value of `key`, if it has one.
    pub fn get(&self, key: &str) -> (r: Option<&V>)
        ensures
            match r {
                Some(v) => self@.contains_key(key@) && *v == self@[key@],
                None => !self@.contains_key(key@),
            },
    {
        match self.position(key) {
            Some(i) => Some(self.value_at(i)),
            None => None,
        }
    }

    /// Puts `value` in place of the value at position `i`, and returns
    /// the value that was there.
    pub fn replace_at(&mut self, i: usize, value: V) -> (previous: V)
        requires
            i < old(self).keys().len(),
        ensures
            final(self).keys() == old(self).keys(),
            final(self).values() == old(self).values().update(i as int, value),
            final(self)@ == old(self)@.insert(old(self).keys()[i as int], value),
            previous == old(self).values()[i as int],
            old(self)@.contains_key(old(self).keys()[i as int]),
            previous == old(self)@[old(self).keys()[i as int]],
    {
        proof {
            use_type_invariant(&*self);
            lemma_map_of_at(self.keys(), self.values(), i as int);
            lemma_map_of_update(self.keys(), self.values(), i as int, value);
        }
        let mut taken = StrMap { keys: Vec::new(), values: Vec::new() };
        std::mem::swap(self, &mut taken);
        let StrMap { keys, values } = taken;
        let mut values = values;
        let mut previous = value;
        std::mem::swap(&mut values[i], &mut previous);
        assert(values@ =~= old(self).values().update(i as int, value));
        *self = StrMap { keys, values };
        previous
    }

    /// Sets the value of `key`, and returns the value that it had.
    pub fn insert(&mut self, key: String, value: V) -> (previous: Option<V>)
        ensures
            final(self)@ == old(self)@.insert(key@, value),
            match previous {
                Some(v) => old(self)@.contains_key(key@) && v == old(self)@[key@]
                    && final(self).keys() == old(self).keys(),
                None => !old(self)@.contains_key(key@)
                    && final(self).keys() == old(self).keys().push(key@)
                    && final(self).values() == old(self).values().push(value),
            },
    {
        match self.position(key.as_str()) {
            Some(i) => Some(self.replace_at(i, value)),
            None => {
                proof {
                    use_type_invariant(&*self);
                    lemma_map_of_push(self.keys(), self.values(), key@, value);
                }
                let mut taken = StrMap { keys: Vec::new(), values: Vec::new() };
                std::mem::swap(self, &mut taken);
                let StrMap { keys, values } = taken;
                let mut keys = keys;
                let mut values = values;
                keys.push(key);
                values.push(value);
                let ghost new_keys = keys@.map_values(|k: String| k@);
                assert(new_keys =~= old(self).keys().push(key@));
                assert forall|i: int, j: int| 0 <= i < j < keys@.len() implies keys@[i]@
                    != keys@[j]@ by {
                    assert(new_keys[i] == keys@[i]@ && new_keys[j] == keys@[j]@);
                }
                *self = StrMap { keys, values };
                None
            },
        }
    }
}

/// With distinct keys, the value at a position is the value of its key.
pub proof fn lemma_map_of_at<V>(keys: Seq<Seq<char>>, values: Seq<V>, i: int)
    requires
        keys.no_duplicates(),
        0 <= i < keys.len(),
    ensures
        map_of(keys, values).contains_key(keys[i]),
        map_of(keys, values)[keys[i]] == values[i],
{
    assert(keys.contains(keys[i]));
    let j = keys.index_of(keys[i]);
    assert(0 <= j < keys.len() && keys[j] == keys[i]);
}

/// Replacing the value at a position replaces the value of its key.
pub proof fn lemma_map_of_update<V>(keys: Seq<Seq<char>>, values: Seq<V>, i: int, value: V)
    requires
        keys.no_duplicates(),
        keys.len() == values.len(),
        0 <= i < keys.len(),
    ensures
        map_of(keys, values.update(i, value)) == map_of(keys, values).insert(keys[i], value),
{
    let a = map_of(keys, values.update(i, value));
    let b = map_of(keys, values).insert(keys[i], value);
    assert(keys.contains(keys[i]));
    assert forall|k: Seq<char>| a.contains_key(k) implies #[trigger] a[k] == b[k] by {
        let j = keys.index_of(k);
        assert(0 <= j < keys.len() && keys[j] == k);
    }
    assert(a =~= b);
}

/// Appending a fresh key with its value adds that entry.
pub proof fn lemma_map_of_push<V>(keys: Seq<Seq<char>>, values: Seq<V>, key: Seq<char>, value: V)
    requires
        keys.no_duplicates(),
        keys.len() == values.len(),
        !keys.contains(key),
    ensures
        keys.push(key).no_duplicates(),
        map_of(keys.push(key), values.push(value)) == map_of(keys, values).insert(key, value),
{
    let ks = keys.push(key);
    let vs = values.push(value);
    let a = map_of(ks, vs);
    let b = map_of(keys, values).insert(key, value);
    assert forall|i: int, j: int| 0 <= i < ks.len() && 0 <= j < ks.len() && i != j implies ks[i]
        != ks[j] by {
        if i < keys.len() {
            assert(keys.contains(keys[i]));
        }
        if j < keys.len() {
            assert(keys.contains(keys[j]));
        }
    }
    assert forall|k: Seq<char>| a.contains_key(k) == b.contains_key(k) by {
        if keys.contains(k) {
            let j = keys.index_of(k);
            assert(ks[j] == k);
        }
        if ks.contains(k) {
            let j = ks.index_of(k);
            assert(0 <= j < ks.len() && ks[j] == k);
            if j < keys.len() {
                assert(keys[j] == k);
            }
        }
        assert(ks[keys.len() as int] == key);
    }
    assert forall|k: Seq<char>| a.contains_key(k) implies #[trigger] a[k] == b[k] by {
        let j = ks.index_of(k);
        assert(0 <= j < ks.len() && ks[j] == k);
        if k == key {
            assert(ks[keys.len() as int] == key);
        } else {
            assert(keys[j] == k);
            let j2 = keys.index_of(k);
            assert(0 <= j2 < keys.len() && keys[j2] == k);
        }
    }
    assert(a =~= b);
}

} // verus!
