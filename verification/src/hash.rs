//! Hashes: ordered maps from values to values.

use vstd::prelude::*;
use indexmap::IndexMap;
use crate::ordered::{
    distinct_keys, lemma_insert_distinct, lemma_position, spec_insert, spec_position,
};
use crate::value::{RbAny, Value};

verus! {

/// The entries of a hash, in the order of insertion: each the model of a key
/// and the model of its value.
pub uninterp spec fn hash_entries(m: IndexMap<RbAny, RbAny>) -> Seq<(Value, Value)>;

/// `IndexMap::new`: a map without entries.
#[verifier::external_body]
fn hash_map_new() -> (m: IndexMap<RbAny, RbAny>)
    ensures
        hash_entries(m) == Seq::<(Value, Value)>::empty(),
{
    IndexMap::new()
}

/// `IndexMap::len`: the number of entries.
#[verifier::external_body]
fn hash_map_len(m: &IndexMap<RbAny, RbAny>) -> (n: usize)
    ensures
        n == hash_entries(*m).len(),
{
    m.len()
}

/// `IndexMap::insert`. Where an equal key is present, its entry keeps its
/// place and its key, takes the new value, and the old value is returned;
/// otherwise the entry is added last and nothing is returned. Keys are
/// values, which are equal when they are the same scalar or the same handle.
#[verifier::external_body]
fn hash_map_insert(m: &mut IndexMap<RbAny, RbAny>, key: RbAny, value: RbAny) -> (r: Option<
    RbAny,
>)
    ensures
        hash_entries(*final(m)) == spec_insert(hash_entries(*old(m)), key@, value@),
        match spec_position(hash_entries(*old(m)), key@) {
            Some(i) => r matches Some(v) && v@ == hash_entries(*old(m))[i].1,
            None => r is None,
        },
{
    m.insert(key, value)
}

/// `IndexMap::get_index`: the entry at a position, if the map has that many.
#[verifier::external_body]
fn hash_map_get_index(m: &IndexMap<RbAny, RbAny>, index: usize) -> (r: Option<
    (&RbAny, &RbAny),
>)
    ensures
        match r {
            Some((k, v)) => index < hash_entries(*m).len() && k@ == hash_entries(
                *m,
            )[index as int].0 && v@ == hash_entries(*m)[index as int].1,
            None => index >= hash_entries(*m).len(),
        },
{
    m.get_index(index)
}

/// `IndexMap::get_index_of`: the position of the entry with an equal key.
#[verifier::external_body]
fn hash_map_get_index_of(m: &IndexMap<RbAny, RbAny>, key: &RbAny) -> (r: Option<usize>)
    ensures
        match r {
            Some(i) => spec_position(hash_entries(*m), key@) == Some(i as int),
            None => spec_position(hash_entries(*m), key@) is None,
        },
{
    m.get_index_of(key)
}

/// `IndexMap::clone`: a map with clones of the entries, in the same order.
#[verifier::external_body]
fn hash_map_clone(m: &IndexMap<RbAny, RbAny>) -> (r: IndexMap<RbAny, RbAny>)
    ensures
        hash_entries(r) == hash_entries(*m),
{
    m.clone()
}

/// A hash: keys with their values, in the order in which the keys were
/// first inserted, and the value that lookups of absent keys default to, if
/// the hash has one. No key occurs twice; keys are equal when they are the
/// same scalar or name the same object.
#[derive(Debug)]
pub struct RbHash {
    map: IndexMap<RbAny, RbAny>,
    default: Option<Box<RbAny>>,
}

impl View for RbHash {
    type V = Seq<(Value, Value)>;

    closed spec fn view(&self) -> Seq<(Value, Value)> {
        hash_entries(self.map)
    }
}

impl Clone for RbHash {
    fn clone(&self) -> (r: Self)
        ensures
            r@ == self@,
            r.spec_default() == self.spec_default(),
    {
        proof {
            use_type_invariant(self);
        }
        let default = match &self.default {
            Some(d) => Some(Box::new((**d).clone())),
            None => None,
        };
        RbHash { map: hash_map_clone(&self.map), default }
    }
}

impl RbHash {
    #[verifier::type_invariant]
    closed spec fn inv(self) -> bool {
        distinct_keys(hash_entries(self.map))
    }

    /// The model of the default value, if the hash has one.
    pub closed spec fn spec_default(&self) -> Option<Value> {
        match self.default {
            Some(d) => Some(d@),
            None => None,
        }
    }

    /// A hash without entries and without a default value.
    pub fn new() -> (r: RbHash)
        ensures
            r@ == Seq::<(Value, Value)>::empty(),
            r.spec_default() is None,
    {
        RbHash { map: hash_map_new(), default: None }
    }

    /// A hash of the given pairs, inserted in their order, without a
    /// default value.
    pub fn from_pairs(pairs: Vec<(RbAny, RbAny)>) -> (r: RbHash)
        ensures
            r@ == spec_from_pairs(pairs@, pairs@.len() as int),
            r.spec_default() is None,
    {
        let mut hash = RbHash::new();
        let mut i: usize = 0;
        while i < pairs.len()
            invariant
                0 <= i <= pairs@.len(),
                hash@ == spec_from_pairs(pairs@, i as int),
                hash.spec_default() is None,
            decreases pairs@.len() - i,
        {
            let key = pairs[i].0.clone();
            let value = pairs[i].1.clone();
            hash.insert(key, value);
            i = i + 1;
        }
        hash
    }

    /// The number of entries. No two of them have the same key.
    pub fn len(&self) -> (n: usize)
        ensures
            n == self@.len(),
            distinct_keys(self@),
    {
        proof {
            use_type_invariant(self);
        }
        hash_map_len(&self.map)
    }

    /// Sets the value of `key`. A key that is present keeps its place and its
    /// old value is returned; a new key comes last.
    pub fn insert(&mut self, key: RbAny, value: RbAny) -> (r: Option<RbAny>)
        ensures
            final(self)@ == spec_insert(old(self)@, key@, value@),
            final(self).spec_default() == old(self).spec_default(),
            match spec_position(old(self)@, key@) {
                Some(i) => r matches Some(v) && v@ == old(self)@[i].1,
                None => r is None,
            },
    {
        proof {
            use_type_invariant(&*self);
            lemma_insert_distinct(self@, key@, value@);
        }
        let mut map = hash_map_new();
        std::mem::swap(&mut self.map, &mut map);
        let r = hash_map_insert(&mut map, key, value);
        std::mem::swap(&mut self.map, &mut map);
        r
    }

    /// The entry at position `index`, if there are that many.
    pub fn get_index(&self, index: usize) -> (r: Option<(&RbAny, &RbAny)>)
        ensures
            match r {
                Some((k, v)) => index < self@.len() && k@ == self@[index as int].0 && v@
                    == self@[index as int].1,
                None => index >= self@.len(),
            },
    {
        hash_map_get_index(&self.map, index)
    }

    /// The position of the entry with the given key.
    pub fn get_index_of(&self, key: &RbAny) -> (r: Option<usize>)
        ensures
            match r {
                Some(i) => spec_position(self@, key@) == Some(i as int),
                None => spec_position(self@, key@) is None,
            },
    {
        hash_map_get_index_of(&self.map, key)
    }

    /// The value of the given key.
    pub fn get(&self, key: &RbAny) -> (r: Option<&RbAny>)
        ensures
            match spec_position(self@, key@) {
                Some(i) => r matches Some(v) && v@ == self@[i].1,
                None => r is None,
            },
    {
        proof {
            lemma_position(self@, key@);
        }
        match self.get_index_of(key) {
            Some(i) => match self.get_index(i) {
                Some((_, v)) => Some(v),
                None => None,
            },
            None => None,
        }
    }

    /// The default value, if the hash has one.
    pub fn default_value(&self) -> (r: Option<&RbAny>)
        ensures
            match r {
                Some(d) => self.spec_default() == Some(d@),
                None => self.spec_default() is None,
            },
    {
        match &self.default {
            Some(d) => Some(&**d),
            None => None,
        }
    }

    /// Sets or removes the default value.
    pub fn set_default(&mut self, default: Option<RbAny>)
        ensures
            final(self)@ == old(self)@,
            final(self).spec_default() == (match default {
                Some(d) => Some(d@),
                None => None,
            }),
    {
        proof {
            use_type_invariant(&*self);
        }
        self.default = match default {
            Some(d) => Some(Box::new(d)),
            None => None,
        };
    }
}

/// The entries after inserting the first `n` of the given pairs, in order,
/// into an empty hash.
pub open spec fn spec_from_pairs(pairs: Seq<(RbAny, RbAny)>, n: int) -> Seq<(Value, Value)>
    decreases n,
{
    if n <= 0 {
        Seq::empty()
    } else {
        spec_insert(spec_from_pairs(pairs, n - 1), pairs[n - 1].0@, pairs[n - 1].1@)
    }
}

} // verus!
