//! Maps from texts, kept in the order of their keys.

use crate::text;
use vstd::prelude::*;
use vstd::string::*;

verus! {

/// A map whose entries lie in ascending order of their keys, each key once.
#[derive(Debug)]
pub struct TextMap<V> {
    keys: Vec<String>,
    values: Vec<V>,
}

/// Every key comes before the ones behind it.
pub open spec fn ascending(keys: Seq<Seq<char>>) -> bool {
    forall|i: int, j: int|
        0 <= i < j < keys.len() ==> text::precedes(#[trigger] keys[i], #[trigger] keys[j])
}

/// The map that keys and values at the same places make up.
pub open spec fn map_of<V>(keys: Seq<Seq<char>>, values: Seq<V>) -> Map<Seq<char>, V> {
    Map::new(
        |key: Seq<char>| keys.contains(key),
        |key: Seq<char>| values[keys.index_of(key)],
    )
}

proof fn lemma_ascending_distinct(keys: Seq<Seq<char>>)
    requires
        ascending(keys),
    ensures
        keys.no_duplicates(),
{
    assert forall|i: int, j: int|
        0 <= i < keys.len() && 0 <= j < keys.len() && i != j implies keys[i] != keys[j] by {
        if i < j {
            assert(text::precedes(keys[i], keys[j]));
        } else {
            assert(text::precedes(keys[j], keys[i]));
        }
        text::lemma_precedes_total(keys[i], keys[j]);
    }
}

/// A key at a place is mapped to the value at that place.
pub proof fn lemma_map_at<V>(keys: Seq<Seq<char>>, values: Seq<V>, i: int)
    requires
        ascending(keys),
        keys.len() == values.len(),
        0 <= i < keys.len(),
    ensures
        map_of(keys, values).contains_key(keys[i]),
        map_of(keys, values)[keys[i]] == values[i],
{
    lemma_ascending_distinct(keys);
    let k = keys.index_of(keys[i]);
    assert(keys.contains(keys[i]));
    assert(keys[k] == keys[i]);
}

impl<V> View for TextMap<V> {
    type V = Map<Seq<char>, V>;

    open spec fn view(&self) -> Map<Seq<char>, V> {
        map_of(self.keys(), self.values())
    }
}

impl<V> TextMap<V> {
    #[verifier::type_invariant]
    spec fn inv(self) -> bool {
        self.keys.len() == self.values.len() && ascending(text::texts(self.keys@))
    }

    /// The keys, in order.
    pub closed spec fn keys(&self) -> Seq<Seq<char>> {
        text::texts(self.keys@)
    }

    /// The values, in the order of their keys.
    pub closed spec fn values(&self) -> Seq<V> {
        self.values@
    }

    pub fn new() -> (r: Self)
        ensures
            r@ == Map::<Seq<char>, V>::empty(),
            r.keys().len() == 0,
    {
        let r = TextMap { keys: Vec::new(), values: Vec::new() };
        assert(r@ =~= Map::<Seq<char>, V>::empty());
        r
    }

    pub fn len(&self) -> (r: usize)
        ensures
            r == self.keys().len(),
            r == self.values().len(),
            r == self@.dom().len(),
            self@.dom().finite(),
            ascending(self.keys()),
            forall|key: Seq<char>| #[trigger]
                self@.contains_key(key) <==> self.keys().contains(key),
            forall|i: int|
                0 <= i < r ==> self@.contains_key(#[trigger] self.keys()[i])
                    && self@[self.keys()[i]] == self.values()[i],
    {
        proof {
            use_type_invariant(self);
            lemma_ascending_distinct(self.keys());
            self.keys().unique_seq_to_set();
            assert(self@.dom() =~= self.keys().to_set());
            assert forall|i: int| 0 <= i < self.keys.len() implies self@.contains_key(
                #[trigger] self.keys()[i],
            ) && self@[self.keys()[i]] == self.values()[i] by {
                lemma_map_at(self.keys(), self.values(), i);
            }
        }
        self.keys.len()
    }

    pub fn key_at(&self, i: usize) -> (r: &String)
        requires
            i < self.keys().len(),
        ensures
            r@ == self.keys()[i as int],
    {
        &self.keys[i]
    }

    pub fn value_at(&self, i: usize) -> (r: &V)
        requires
            i < self.keys().len(),
        ensures
            *r == self.values()[i as int],
            self@.contains_key(self.keys()[i as int]),
            self@[self.keys()[i as int]] == *r,
    {
        proof {
            use_type_invariant(self);
            lemma_map_at(self.keys(), self.values(), i as int);
        }
        &self.values[i]
    }

    /// The first place whose key does not come before `key`.
    fn place(&self, key: &str) -> (r: usize)
        ensures
            r <= self.keys.len(),
            forall|i: int| 0 <= i < r ==> text::precedes(#[trigger] self.keys()[i], key@),
            forall|i: int|
                r <= i < self.keys.len() ==> !text::precedes(#[trigger] self.keys()[i], key@),
    {
        proof {
            use_type_invariant(self);
        }
        let ghost keys = self.keys();
        let mut low: usize = 0;
        let mut high: usize = self.keys.len();
        while low < high
            invariant
                low <= high <= self.keys.len(),
                keys == text::texts(self.keys@),
                ascending(keys),
                forall|i: int| 0 <= i < low ==> text::precedes(#[trigger] keys[i], key@),
                forall|i: int|
                    high <= i < self.keys.len() ==> !text::precedes(#[trigger] keys[i], key@),
            decreases high - low,
        {
            let middle: usize = low + (high - low) / 2;
            assert(keys[middle as int] == self.keys@[middle as int]@);
            if text::text_precedes(self.keys[middle].as_str(), key) {
                proof {
                    assert forall|i: int| 0 <= i <= middle implies text::precedes(
                        #[trigger] keys[i],
                        key@,
                    ) by {
                        if i < middle {
                            text::lemma_precedes_transitive(keys[i], keys[middle as int], key@);
                        }
                    }
                }
                low = middle + 1;
            } else {
                proof {
                    assert forall|i: int| middle <= i < self.keys.len() implies !text::precedes(
                        #[trigger] keys[i],
                        key@,
                    ) by {
                        if i > middle {
                            if text::precedes(keys[i], key@) {
                                text::lemma_precedes_transitive(
                                    keys[middle as int],
                                    keys[i],
                                    key@,
                                );
                            }
                        }
                    }
                }
                high = middle;
            }
        }
        low
    }

    /// The place of a key, if it is in the map.
    fn find(&self, key: &str) -> (r: Option<usize>)
        ensures
            match r {
                Some(i) => i < self.keys.len() && self.keys()[i as int] == key@
                    && self@.contains_key(key@) && self@[key@] == self.values()[i as int],
                None => !self@.contains_key(key@),
            },
    {
        proof {
            use_type_invariant(self);
        }
        let i = self.place(key);
        if i < self.keys.len() && text::text_eq(self.keys[i].as_str(), key) {
            proof {
                assert(self.keys()[i as int] == key@);
                lemma_map_at(self.keys(), self.values(), i as int);
            }
            return Some(i);
        }
        proof {
            if self.keys().contains(key@) {
                let k = self.keys().index_of(key@);
                assert(self.keys()[k] == key@);
                text::lemma_precedes_total(key@, key@);
                if k > i {
                    assert(text::precedes(self.keys()[i as int], self.keys()[k]));
                }
                assert(k == i);
                assert(self.keys()[i as int] == self.keys@[i as int]@);
            }
        }
        None
    }

    pub fn contains_key(&self, key: &str) -> (r: bool)
        ensures
            r == self@.contains_key(key@),
    {
        self.find(key).is_some()
    }

    pub fn get(&self, key: &str) -> (r: Option<&V>)
        ensures
            match r {
                Some(v) => self@.contains_key(key@) && self@[key@] == *v,
                None => !self@.contains_key(key@),
            },
    {
        match self.find(key) {
            Some(i) => {
                proof {
                    use_type_invariant(self);
                }
                Some(&self.values[i])
            },
            None => None,
        }
    }

    pub fn insert(&mut self, key: String, value: V)
        ensures
            final(self)@ == old(self)@.insert(key@, value),
    {
        proof {
            use_type_invariant(&*self);
        }
        let i = self.place(key.as_str());
        let here = i < self.keys.len() && text::text_eq(self.keys[i].as_str(), key.as_str());
        let ghost before_keys = self.keys();
        let ghost before_values = self.values@;
        let ghost k = key@;
        assert(forall|i: int| 0 <= i < before_keys.len() ==> before_keys[i] == self.keys()[i]);
        let mut whole: TextMap<V> = TextMap::new();
        std::mem::swap(&mut whole, self);
        let mut keys = whole.keys;
        let mut values = whole.values;
        if here {
            values.set(i, value);
            proof {
                lemma_map_replace(before_keys, before_values, i as int, value);
            }
        } else {
            keys.insert(i, key);
            values.insert(i, value);
            proof {
                assert(text::texts(keys@) =~= before_keys.insert(i as int, k));
                if i < before_keys.len() {
                    text::lemma_precedes_total(before_keys[i as int], k);
                }
                lemma_map_insert(before_keys, before_values, i as int, k, value);
            }
        }
        *self = TextMap { keys, values };
    }

    pub fn remove(&mut self, key: &str)
        ensures
            final(self)@ == old(self)@.remove(key@),
    {
        let found = self.find(key);
        proof {
            use_type_invariant(&*self);
        }
        let ghost before_keys = text::texts(self.keys@);
        let ghost before_values = self.values@;
        if let Some(i) = found {
            let mut whole: TextMap<V> = TextMap::new();
            std::mem::swap(&mut whole, self);
            let mut keys = whole.keys;
            let mut values = whole.values;
            keys.remove(i);
            values.remove(i);
            proof {
                assert(text::texts(keys@) =~= before_keys.remove(i as int));
                lemma_map_remove(before_keys, before_values, i as int);
            }
            *self = TextMap { keys, values };
        } else {
            assert(self@.remove(key@) =~= self@);
        }
    }
}

proof fn lemma_map_replace<V>(keys: Seq<Seq<char>>, values: Seq<V>, i: int, value: V)
    requires
        ascending(keys),
        keys.len() == values.len(),
        0 <= i < keys.len(),
    ensures
        map_of(keys, values.update(i, value)) == map_of(keys, values).insert(keys[i], value),
{
    lemma_ascending_distinct(keys);
    let a = map_of(keys, values.update(i, value));
    let b = map_of(keys, values).insert(keys[i], value);
    assert forall|key: Seq<char>| a.contains_key(key) implies #[trigger] a[key] == b[key] by {
        let k = keys.index_of(key);
        assert(keys[k] == key);
    }
    assert(a.dom() =~= b.dom());
    assert(a =~= b);
}

proof fn lemma_map_insert<V>(
    keys: Seq<Seq<char>>,
    values: Seq<V>,
    i: int,
    key: Seq<char>,
    value: V,
)
    requires
        ascending(keys),
        keys.len() == values.len(),
        0 <= i <= keys.len(),
        forall|k: int| 0 <= k < i ==> text::precedes(#[trigger] keys[k], key),
        forall|k: int| i <= k < keys.len() ==> !text::precedes(#[trigger] keys[k], key),
        i < keys.len() ==> keys[i] != key && text::precedes(key, keys[i]),
    ensures
        ascending(keys.insert(i, key)),
        map_of(keys.insert(i, key), values.insert(i, value)) == map_of(keys, values).insert(
            key,
            value,
        ),
{
    let after = keys.insert(i, key);
    assert forall|a: int, b: int| 0 <= a < b < after.len() implies text::precedes(
        #[trigger] after[a],
        #[trigger] after[b],
    ) by {
        if b == i {
            assert(after[a] == keys[a]);
        } else if a == i {
            assert(after[b] == keys[b - 1]);
            if b - 1 > i {
                text::lemma_precedes_transitive(key, keys[i], keys[b - 1]);
            }
        } else {
            let x = if a < i {
                a
            } else {
                a - 1
            };
            let y = if b < i {
                b
            } else {
                b - 1
            };
            assert(after[a] == keys[x]);
            assert(after[b] == keys[y]);
        }
    }
    lemma_ascending_distinct(keys);
    lemma_ascending_distinct(after);
    let m = map_of(after, values.insert(i, value));
    let n = map_of(keys, values).insert(key, value);
    assert forall|k: Seq<char>| m.contains_key(k) <==> n.contains_key(k) by {
        if m.contains_key(k) && k != key {
            let p = after.index_of(k);
            assert(after[p] == k);
            assert(keys[if p < i {
                p
            } else {
                p - 1
            }] == k);
        }
        if n.contains_key(k) {
            if k == key {
                assert(after[i] == key);
            } else {
                let p = keys.index_of(k);
                assert(keys[p] == k);
                assert(after[if p < i {
                    p
                } else {
                    p + 1
                }] == k);
            }
        }
    }
    assert forall|k: Seq<char>| m.contains_key(k) implies #[trigger] m[k] == n[k] by {
        let p = after.index_of(k);
        assert(after[p] == k);
        if p == i {
            assert(k == key);
        } else {
            let q = if p < i {
                p
            } else {
                p - 1
            };
            assert(keys[q] == k);
            assert(keys.index_of(k) == q);
            assert(k != key) by {
                assert(after[i] == key);
            }
        }
    }
    assert(m.dom() =~= n.dom());
    assert(m =~= n);
}

proof fn lemma_map_remove<V>(keys: Seq<Seq<char>>, values: Seq<V>, i: int)
    requires
        ascending(keys),
        keys.len() == values.len(),
        0 <= i < keys.len(),
    ensures
        ascending(keys.remove(i)),
        map_of(keys.remove(i), values.remove(i)) == map_of(keys, values).remove(keys[i]),
{
    let after = keys.remove(i);
    assert forall|a: int, b: int| 0 <= a < b < after.len() implies text::precedes(
        #[trigger] after[a],
        #[trigger] after[b],
    ) by {
        let x = if a < i {
            a
        } else {
            a + 1
        };
        let y = if b < i {
            b
        } else {
            b + 1
        };
        assert(after[a] == keys[x]);
        assert(after[b] == keys[y]);
    }
    lemma_ascending_distinct(keys);
    lemma_ascending_distinct(after);
    let m = map_of(after, values.remove(i));
    let n = map_of(keys, values).remove(keys[i]);
    assert forall|k: Seq<char>| m.contains_key(k) <==> n.contains_key(k) by {
        if m.contains_key(k) {
            let p = after.index_of(k);
            assert(after[p] == k);
            assert(keys[if p < i {
                p
            } else {
                p + 1
            }] == k);
        }
        if n.contains_key(k) {
            let p = keys.index_of(k);
            assert(keys[p] == k);
            assert(after[if p < i {
                p
            } else {
                p - 1
            }] == k);
        }
    }
    assert forall|k: Seq<char>| m.contains_key(k) implies #[trigger] m[k] == n[k] by {
        let p = after.index_of(k);
        assert(after[p] == k);
        let q = if p < i {
            p
        } else {
            p + 1
        };
        assert(keys[q] == k);
        assert(keys.index_of(k) == q);
    }
    assert(m.dom() =~= n.dom());
    assert(m =~= n);
}

} // verus!
