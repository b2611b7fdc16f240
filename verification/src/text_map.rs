//! A map from texts, kept in the order of its keys.

use vstd::prelude::*;

use crate::string_set::{increasing, lemma_increasing_distinct};
use crate::text::{before, comes_before, lemma_before_total, lemma_before_trans, text_eq, texts};

verus! {

/// A map from texts. Its entries are handed out in the order of the code
/// points of their keys.
#[derive(Debug, PartialEq, Eq)]
pub struct TextMap<V> {
    keys: Vec<String>,
    values: Vec<V>,
}

/// The map of some keys to the values at the same places.
pub open spec fn zipped<V>(keys: Seq<Seq<char>>, values: Seq<V>) -> Map<Seq<char>, V> {
    Map::new(|key: Seq<char>| keys.contains(key), |key: Seq<char>| values[keys.index_of(key)])
}

impl<V> View for TextMap<V> {
    type V = Map<Seq<char>, V>;

    closed spec fn view(&self) -> Map<Seq<char>, V> {
        zipped(texts(self.keys@), self.values@)
    }
}

/// An increasing list of keys maps each key to the value at its place.
pub proof fn lemma_zipped<V>(keys: Seq<Seq<char>>, values: Seq<V>, i: int)
    requires
        increasing(keys),
        0 <= i < keys.len(),
    ensures
        zipped(keys, values).contains_key(keys[i]),
        zipped(keys, values)[keys[i]] == values[i],
{
    lemma_increasing_distinct(keys);
    assert(keys.contains(keys[i]));
}

impl<V> TextMap<V> {
    #[verifier::type_invariant]
    spec fn in_order(self) -> bool {
        &&& increasing(texts(self.keys@))
        &&& self.keys@.len() == self.values@.len()
    }

    /// The keys in order.
    pub closed spec fn names(self) -> Seq<Seq<char>> {
        texts(self.keys@)
    }

    /// The empty map.
    pub fn new() -> (map: TextMap<V>)
        ensures
            map@ == Map::<Seq<char>, V>::empty(),
    {
        let map = TextMap { keys: Vec::new(), values: Vec::new() };
        proof {
            assert(map@ =~= Map::empty());
        }
        map
    }

    /// The number of entries.
    pub fn len(&self) -> (count: usize)
        ensures
            count == self.names().len(),
            increasing(self.names()),
            self.names().to_set() == self@.dom(),
    {
        proof {
            use_type_invariant(self);
            assert(self.names().to_set() =~= self@.dom());
        }
        self.keys.len()
    }

    /// The key of an entry.
    pub fn name_at(&self, i: usize) -> (name: &String)
        requires
            i < self.names().len(),
        ensures
            name@ == self.names()[i as int],
    {
        &self.keys[i]
    }

    /// The value of an entry.
    pub fn value_at(&self, i: usize) -> (value: &V)
        requires
            i < self.names().len(),
        ensures
            self@.contains_key(self.names()[i as int]),
            *value == self@[self.names()[i as int]],
    {
        proof {
            use_type_invariant(self);
            lemma_zipped(self.names(), self.values@, i as int);
        }
        &self.values[i]
    }

    /// The keys and values in order.
    pub fn into_parts(self) -> (parts: (Vec<String>, Vec<V>))
        ensures
            texts(parts.0@) == self.names(),
            parts.1@.len() == parts.0@.len(),
            increasing(self.names()),
            self.names().to_set() == self@.dom(),
            forall|i: int|
                0 <= i < parts.1@.len() ==> #[trigger] parts.1@[i] == self@[self.names()[i]],
    {
        proof {
            use_type_invariant(&self);
            assert(self.names().to_set() =~= self@.dom());
            assert forall|i: int| 0 <= i < self.values@.len() implies #[trigger] self.values@[i]
                == self@[self.names()[i]] by {
                lemma_zipped(self.names(), self.values@, i);
            }
        }
        (self.keys, self.values)
    }

    /// The place at which a key is, or at which it would be put.
    fn place(&self, key: &str) -> (place: usize)
        requires
            increasing(texts(self.keys@)),
        ensures
            place <= self.keys@.len(),
            forall|j: int| 0 <= j < place ==> before(texts(self.keys@)[j], key@),
            forall|j: int| place <= j < self.keys@.len() ==> !before(texts(self.keys@)[j], key@),
    {
        let ghost all = texts(self.keys@);
        let mut low: usize = 0;
        let mut high: usize = self.keys.len();
        while low < high
            invariant
                low <= high <= self.keys@.len(),
                all == texts(self.keys@),
                increasing(all),
                forall|j: int| 0 <= j < low ==> before(all[j], key@),
                forall|j: int| high <= j < all.len() ==> !before(all[j], key@),
            decreases high - low,
        {
            let middle: usize = low + (high - low) / 2;
            assert(all[middle as int] == self.keys@[middle as int]@);
            if comes_before(self.keys[middle].as_str(), key) {
                proof {
                    assert forall|j: int| 0 <= j < middle + 1 implies before(all[j], key@) by {
                        if j < middle {
                            lemma_before_trans(all[j], all[middle as int], key@);
                        }
                    }
                }
                low = middle + 1;
            } else {
                proof {
                    assert forall|j: int| middle <= j < all.len() implies !before(all[j], key@) by {
                        if j > middle && before(all[j], key@) {
                            lemma_before_trans(all[middle as int], all[j], key@);
                        }
                    }
                }
                high = middle;
            }
        }
        low
    }

    /// The place of a key, if it is there.
    fn position(&self, key: &str) -> (place: Option<usize>)
        requires
            increasing(texts(self.keys@)),
            self.keys@.len() == self.values@.len(),
        ensures
            match place {
                Some(i) => {
                    &&& i < self.keys@.len()
                    &&& texts(self.keys@)[i as int] == key@
                    &&& self@.contains_key(key@)
                    &&& self@[key@] == self.values@[i as int]
                },
                None => !self@.contains_key(key@),
            },
    {
        let place = self.place(key);
        let ghost all = texts(self.keys@);
        if place < self.keys.len() && text_eq(self.keys[place].as_str(), key) {
            proof {
                assert(all[place as int] == key@);
                lemma_zipped(all, self.values@, place as int);
            }
            Some(place)
        } else {
            proof {
                if all.contains(key@) {
                    let k = all.index_of(key@);
                    assert(all[k] == key@);
                    lemma_before_total(key@, key@);
                    if k > place {
                        lemma_before_total(all[place as int], key@);
                    }
                }
            }
            None
        }
    }

    /// The value of a key.
    pub fn get(&self, key: &str) -> (value: Option<&V>)
        ensures
            match value {
                Some(value) => self@.contains_key(key@) && *value == self@[key@],
                None => !self@.contains_key(key@),
            },
    {
        proof {
            use_type_invariant(self);
        }
        match self.position(key) {
            Some(i) => Some(&self.values[i]),
            None => None,
        }
    }

    /// Puts an entry into the map and hands out the value that it replaces.
    pub fn insert(&mut self, key: String, value: V) -> (replaced: Option<V>)
        ensures
            final(self)@ == old(self)@.insert(key@, value),
            match replaced {
                Some(replaced) => old(self)@.contains_key(key@) && replaced == old(self)@[key@],
                None => !old(self)@.contains_key(key@),
            },
    {
        proof {
            use_type_invariant(&*self);
        }
        let position = self.position(key.as_str());
        let place = self.place(key.as_str());
        let ghost before_keys = texts(self.keys@);
        let ghost before_values = self.values@;
        let ghost k = key@;
        let mut empty: TextMap<V> = TextMap { keys: Vec::new(), values: Vec::new() };
        std::mem::swap(&mut empty, self);
        let (mut keys, mut values) = empty.parts();
        match position {
            Some(i) => {
                let ghost v = value;
                proof {
                    lemma_increasing_distinct(before_keys);
                    let after = zipped(before_keys, before_values.update(i as int, v));
                    assert forall|x: Seq<char>| before_keys.contains(x) implies after[x] == zipped(
                        before_keys,
                        before_values,
                    ).insert(k, v)[x] by {
                        let j = before_keys.index_of(x);
                        lemma_zipped(before_keys, before_values, j);
                        lemma_zipped(before_keys, before_values.update(i as int, v), j);
                    }
                    assert(after =~= zipped(before_keys, before_values).insert(k, v));
                }
                values.push(value);
                let replaced = values.swap_remove(i);
                proof {
                    assert(values@ =~= before_values.update(i as int, v));
                }
                *self = TextMap { keys, values };
                Some(replaced)
            },
            None => {
                let ghost v = value;
                proof {
                    let after_keys = before_keys.insert(place as int, k);
                    let after_values = before_values.insert(place as int, v);
                    assert forall|j: int| place <= j < before_keys.len() implies before(
                        k,
                        before_keys[j],
                    ) by {
                        assert(before_keys.contains(before_keys[j]));
                        lemma_before_total(before_keys[j], k);
                    }
                    assert(increasing(after_keys));
                    lemma_increasing_distinct(before_keys);
                    let after = zipped(after_keys, after_values);
                    let wanted = zipped(before_keys, before_values).insert(k, v);
                    assert forall|x: Seq<char>| after.contains_key(x) == wanted.contains_key(x) by {
                        if after_keys.contains(x) {
                            let j = after_keys.index_of(x);
                            if j < place {
                                assert(before_keys[j] == x);
                            } else if j > place {
                                assert(before_keys[j - 1] == x);
                            }
                        }
                        if before_keys.contains(x) {
                            let j = before_keys.index_of(x);
                            if j < place {
                                assert(after_keys[j] == x);
                            } else {
                                assert(after_keys[j + 1] == x);
                            }
                        }
                        assert(after_keys[place as int] == k);
                    }
                    assert forall|x: Seq<char>| after.contains_key(x) implies after[x]
                        == wanted[x] by {
                        let j = after_keys.index_of(x);
                        lemma_zipped(after_keys, after_values, j);
                        if j < place {
                            lemma_zipped(before_keys, before_values, j);
                        } else if j > place {
                            lemma_zipped(before_keys, before_values, j - 1);
                        }
                    }
                    assert(after =~= wanted);
                }
                keys.insert(place, key);
                values.insert(place, value);
                proof {
                    assert(texts(keys@) =~= before_keys.insert(place as int, k));
                }
                *self = TextMap { keys, values };
                None
            },
        }
    }

    /// Takes an entry out of the map.
    pub fn remove(&mut self, key: &str) -> (removed: Option<V>)
        ensures
            final(self)@ == old(self)@.remove(key@),
            match removed {
                Some(removed) => old(self)@.contains_key(key@) && removed == old(self)@[key@],
                None => !old(self)@.contains_key(key@),
            },
    {
        proof {
            use_type_invariant(&*self);
        }
        let ghost before_keys = texts(self.keys@);
        let ghost before_values = self.values@;
        let i = match self.position(key) {
            Some(i) => i,
            None => {
                proof {
                    assert(self@.remove(key@) =~= self@);
                }
                return None;
            },
        };
        let mut empty: TextMap<V> = TextMap { keys: Vec::new(), values: Vec::new() };
        std::mem::swap(&mut empty, self);
        let (mut keys, mut values) = empty.parts();
        keys.remove(i);
        let value = values.remove(i);
        proof {
            let after_keys = before_keys.remove(i as int);
            let after_values = before_values.remove(i as int);
            assert(texts(keys@) =~= after_keys);
            assert(increasing(after_keys));
            lemma_increasing_distinct(before_keys);
            let after = zipped(after_keys, after_values);
            let wanted = zipped(before_keys, before_values).remove(key@);
            assert forall|x: Seq<char>| after.contains_key(x) == wanted.contains_key(x) by {
                if after_keys.contains(x) {
                    let j = after_keys.index_of(x);
                    if j < i {
                        assert(before_keys[j] == x);
                    } else {
                        assert(before_keys[j + 1] == x);
                    }
                }
                if before_keys.contains(x) && x != key@ {
                    let j = before_keys.index_of(x);
                    if j < i {
                        assert(after_keys[j] == x);
                    } else {
                        assert(after_keys[j - 1] == x);
                    }
                }
            }
            assert forall|x: Seq<char>| after.contains_key(x) implies after[x] == wanted[x] by {
                let j = after_keys.index_of(x);
                lemma_zipped(after_keys, after_values, j);
                if j < i {
                    lemma_zipped(before_keys, before_values, j);
                } else {
                    lemma_zipped(before_keys, before_values, j + 1);
                }
            }
            assert(after =~= wanted);
        }
        *self = TextMap { keys, values };
        Some(value)
    }

    /// The two lists of a map.
    fn parts(self) -> (parts: (Vec<String>, Vec<V>))
        ensures
            parts.0 == self.keys,
            parts.1 == self.values,
    {
        (self.keys, self.values)
    }
}

}
