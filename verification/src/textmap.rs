//! A small map from strings to values that keeps its entries in insertion
//! order. Keys are compared by their characters.

use vstd::prelude::*;
use crate::text::{str_eq, string_views};

verus! {

/// A finite map keyed by strings. No key is held twice; an entry added under
/// a key already present replaces the earlier one.
#[derive(Debug)]
pub struct TextMap<T> {
    keys: Vec<String>,
    values: Vec<T>,
}

impl<T> View for TextMap<T> {
    type V = Map<Seq<char>, T>;

    closed spec fn view(&self) -> Map<Seq<char>, T> {
        Map::new(
            |k: Seq<char>| string_views(self.keys@).contains(k),
            |k: Seq<char>| self.values@[string_views(self.keys@).index_of(k)],
        )
    }
}

impl<T> TextMap<T> {
    #[verifier::type_invariant]
    spec fn well_formed(self) -> bool {
        &&& self.keys.len() == self.values.len()
        &&& string_views(self.keys@).no_duplicates()
    }

    /// The keys in insertion order.
    pub closed spec fn key_seq(self) -> Seq<Seq<char>> {
        string_views(self.keys@)
    }

    /// A map without entries.
    pub fn new() -> (r: Self)
        ensures
            r@ == Map::<Seq<char>, T>::empty(),
            r.key_seq() == Seq::<Seq<char>>::empty(),
    {
        let r = TextMap { keys: Vec::new(), values: Vec::new() };
        assert(r@ =~= Map::<Seq<char>, T>::empty());
        assert(r.key_seq() =~= Seq::<Seq<char>>::empty());
        r
    }

    fn position(&self, key: &str) -> (r: Option<usize>)
        ensures
            match r {
                Some(i) => i < self.keys.len() && self.keys@[i as int]@ == key@,
                None => !string_views(self.keys@).contains(key@),
            },
    {
        let mut i: usize = 0;
        while i < self.keys.len()
            invariant
                i <= self.keys.len(),
                forall|j: int| 0 <= j < i ==> string_views(self.keys@)[j] != key@,
            decreases self.keys.len() - i,
        {
            if str_eq(self.keys[i].as_str(), key) {
                return Some(i);
            }
            i += 1;
        }
        None
    }

    /// The value held under `key`, if there is one.
    pub fn get(&self, key: &str) -> (r: Option<&T>)
        ensures
            match r {
                Some(v) => self@.contains_key(key@) && *v == self@[key@],
                None => !self@.contains_key(key@),
            },
    {
        proof {
            use_type_invariant(self);
        }
        match self.position(key) {
            Some(i) => {
                proof {
                    let ks = string_views(self.keys@);
                    assert(ks[i as int] == key@);
                    assert(ks.contains(key@));
                    let j = ks.index_of(key@);
                    assert(ks[j] == key@);
                }
                Some(&self.values[i])
            },
            None => None,
        }
    }

    /// Whether a value is held under `key`.
    pub fn contains_key(&self, key: &str) -> (r: bool)
        ensures
            r == self@.contains_key(key@),
    {
        self.get(key).is_some()
    }

    /// Puts `value` under `key`, in place of any value held there before.
    pub fn insert(&mut self, key: String, value: T)
        ensures
            final(self)@ == old(self)@.insert(key@, value),
            old(self)@.contains_key(key@) ==> final(self).key_seq() == old(self).key_seq(),
            !old(self)@.contains_key(key@) ==> final(self).key_seq() == old(self).key_seq().push(
                key@,
            ),
    {
        proof {
            use_type_invariant(&*self);
        }
        let ghost old_keys = string_views(self.keys@);
        let ghost old_values = self.values@;
        let ghost old_map = self@;
        let found = self.position(key.as_str());
        let mut taken = TextMap { keys: Vec::new(), values: Vec::new() };
        std::mem::swap(self, &mut taken);
        let TextMap { keys, values } = taken;
        let mut keys = keys;
        let mut values = values;
        match found {
            Some(i) => {
                values.set(i, value);
                *self = TextMap { keys, values };
                proof {
                    assert(old_keys[i as int] == key@);
                    assert forall|k: Seq<char>| old_keys.contains(k) implies #[trigger] self@[k]
                        == old_map.insert(key@, value)[k] by {
                        let j = old_keys.index_of(k);
                        assert(old_keys[j] == k);
                    }
                    assert(self@ =~= old_map.insert(key@, value));
                }
            },
            None => {
                keys.push(key);
                values.push(value);
                proof {
                    assert(string_views(keys@) == old_keys.push(key@));
                    assert forall|a: int, b: int|
                        0 <= a < keys@.len() && 0 <= b < keys@.len() && a != b implies string_views(
                        keys@,
                    )[a] != string_views(keys@)[b] by {
                        if a < old_keys.len() {
                            assert(old_keys[a] == string_views(keys@)[a]);
                        }
                        if b < old_keys.len() {
                            assert(old_keys[b] == string_views(keys@)[b]);
                        }
                    }
                }
                *self = TextMap { keys, values };
                proof {
                    let new_keys = string_views(self.keys@);
                    assert(new_keys == old_keys.push(key@));
                    assert forall|k: Seq<char>| new_keys.contains(k) implies #[trigger] self@[k]
                        == old_map.insert(key@, value)[k] by {
                        let j = new_keys.index_of(k);
                        assert(new_keys[j] == k);
                        if k != key@ {
                            assert(old_keys[j] == k);
                            let j0 = old_keys.index_of(k);
                            assert(old_keys[j0] == k);
                        }
                    }
                    assert forall|k: Seq<char>| new_keys.contains(k) == (old_keys.contains(k) || k
                        == key@) by {
                        if old_keys.contains(k) {
                            let j0 = old_keys.index_of(k);
                            assert(new_keys[j0] == k);
                        }
                        if k == key@ {
                            assert(new_keys[old_keys.len() as int] == k);
                        }
                    }
                    assert(self@ =~= old_map.insert(key@, value));
                }
            },
        }
    }

    /// Removes every entry.
    pub fn clear(&mut self)
        ensures
            final(self)@ == Map::<Seq<char>, T>::empty(),
            final(self).key_seq() == Seq::<Seq<char>>::empty(),
    {
        *self = TextMap { keys: Vec::new(), values: Vec::new() };
        assert(self@ =~= Map::<Seq<char>, T>::empty());
        assert(self.key_seq() =~= Seq::<Seq<char>>::empty());
    }

    /// Number of entries. The keys are distinct and are exactly the domain of
    /// the map.
    pub fn len(&self) -> (r: usize)
        ensures
            r == self.key_seq().len(),
            r == self@.dom().len(),
            self@.dom().finite(),
            self.key_seq().no_duplicates(),
            self.key_seq().to_set() == self@.dom(),
    {
        proof {
            use_type_invariant(self);
            assert(self.key_seq().to_set() =~= self@.dom());
            self.key_seq().unique_seq_to_set();
            vstd::seq_lib::seq_to_set_is_finite(self.key_seq());
        }
        self.keys.len()
    }

    /// Whether the map holds no entry.
    pub fn is_empty(&self) -> (r: bool)
        ensures
            r == (self@ == Map::<Seq<char>, T>::empty()),
    {
        proof {
            use_type_invariant(self);
            if self.keys.len() == 0 {
                assert(self@ =~= Map::<Seq<char>, T>::empty());
            } else {
                assert(string_views(self.keys@)[0] == self.keys@[0]@);
                assert(self@.contains_key(self.keys@[0]@));
            }
        }
        self.keys.len() == 0
    }

    /// The key of the entry at position `i` of the insertion order.
    pub fn key_at(&self, i: usize) -> (r: &String)
        requires
            i < self.key_seq().len(),
        ensures
            r@ == self.key_seq()[i as int],
            self@.contains_key(r@),
    {
        proof {
            use_type_invariant(self);
            assert(string_views(self.keys@)[i as int] == self.keys@[i as int]@);
        }
        &self.keys[i]
    }

    /// The value of the entry at position `i` of the insertion order.
    pub fn value_at(&self, i: usize) -> (r: &T)
        requires
            i < self.key_seq().len(),
        ensures
            *r == self@[self.key_seq()[i as int]],
    {
        proof {
            use_type_invariant(self);
            let ks = string_views(self.keys@);
            let j = ks.index_of(ks[i as int]);
            assert(ks[j] == ks[i as int]);
        }
        &self.values[i]
    }
}

} // verus!
