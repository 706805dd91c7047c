//! The ordered fields of an object or of an annotated string.

use vstd::prelude::*;
use indexmap::IndexMap;
use crate::ordered::{
    distinct_keys, lemma_insert_distinct, lemma_position, spec_insert, spec_position,
};
use crate::symbol::RbSymbol;
use crate::value::{RbAny, Value};

verus! {

/// The entries of a field map, in the order of insertion: each a symbol's
/// bytes and the model of its value.
pub uninterp spec fn fields_entries(m: IndexMap<RbSymbol, RbAny>) -> Seq<(Seq<u8>, Value)>;

/// `IndexMap::new`: a map without entries.
#[verifier::external_body]
fn fields_map_new() -> (m: IndexMap<RbSymbol, RbAny>)
    ensures
        fields_entries(m) == Seq::<(Seq<u8>, Value)>::empty(),
{
    IndexMap::new()
}

/// `IndexMap::len`: the number of entries.
#[verifier::external_body]
fn fields_map_len(m: &IndexMap<RbSymbol, RbAny>) -> (n: usize)
    ensures
        n == fields_entries(*m).len(),
{
    m.len()
}

/// `IndexMap::insert`. Where an equal key is present, its entry keeps its
/// place and its key, takes the new value, and the old value is returned;
/// otherwise the entry is added last and nothing is returned. Keys are
/// symbols, which are equal when their bytes are.
#[verifier::external_body]
fn fields_map_insert(m: &mut IndexMap<RbSymbol, RbAny>, key: RbSymbol, value: RbAny) -> (r: Option<
    RbAny,
>)
    ensures
        fields_entries(*final(m)) == spec_insert(fields_entries(*old(m)), key@, value@),
        match spec_position(fields_entries(*old(m)), key@) {
            Some(i) => r matches Some(v) && v@ == fields_entries(*old(m))[i].1,
            None => r is None,
        },
{
    m.insert(key, value)
}

/// `IndexMap::get_index`: the entry at a position, if the map has that many.
#[verifier::external_body]
fn fields_map_get_index(m: &IndexMap<RbSymbol, RbAny>, index: usize) -> (r: Option<
    (&RbSymbol, &RbAny),
>)
    ensures
        match r {
            Some((k, v)) => index < fields_entries(*m).len() && k@ == fields_entries(
                *m,
            )[index as int].0 && v@ == fields_entries(*m)[index as int].1,
            None => index >= fields_entries(*m).len(),
        },
{
    m.get_index(index)
}

/// `IndexMap::get_index_of`: the position of the entry with an equal key.
#[verifier::external_body]
fn fields_map_get_index_of(m: &IndexMap<RbSymbol, RbAny>, key: &RbSymbol) -> (r: Option<usize>)
    ensures
        match r {
            Some(i) => spec_position(fields_entries(*m), key@) == Some(i as int),
            None => spec_position(fields_entries(*m), key@) is None,
        },
{
    m.get_index_of(key)
}

/// `IndexMap::clone`: a map with clones of the entries, in the same order.
#[verifier::external_body]
fn fields_map_clone(m: &IndexMap<RbSymbol, RbAny>) -> (r: IndexMap<RbSymbol, RbAny>)
    ensures
        fields_entries(r) == fields_entries(*m),
{
    m.clone()
}

/// An ordered list of fields: symbols with their values, in the order in
/// which the symbols were first inserted. No symbol occurs twice.
#[derive(Debug)]
pub struct RbFields {
    map: IndexMap<RbSymbol, RbAny>,
}

impl Clone for RbFields {
    fn clone(&self) -> (r: Self)
        ensures
            r@ == self@,
    {
        proof {
            use_type_invariant(self);
        }
        RbFields { map: fields_map_clone(&self.map) }
    }
}

impl View for RbFields {
    type V = Seq<(Seq<u8>, Value)>;

    closed spec fn view(&self) -> Seq<(Seq<u8>, Value)> {
        fields_entries(self.map)
    }
}

impl RbFields {
    #[verifier::type_invariant]
    closed spec fn inv(self) -> bool {
        distinct_keys(fields_entries(self.map))
    }

    /// A list without fields.
    pub fn new() -> (r: RbFields)
        ensures
            r@ == Seq::<(Seq<u8>, Value)>::empty(),
    {
        RbFields { map: fields_map_new() }
    }

    /// The number of fields. No two of them have the same key.
    pub fn len(&self) -> (n: usize)
        ensures
            n == self@.len(),
            distinct_keys(self@),
    {
        proof {
            use_type_invariant(self);
        }
        fields_map_len(&self.map)
    }

    /// Sets the value of `key`. A key that is present keeps its place and its
    /// old value is returned; a new key comes last.
    pub fn insert(&mut self, key: RbSymbol, value: RbAny) -> (r: Option<RbAny>)
        ensures
            final(self)@ == spec_insert(old(self)@, key@, value@),
            match spec_position(old(self)@, key@) {
                Some(i) => r matches Some(v) && v@ == old(self)@[i].1,
                None => r is None,
            },
    {
        proof {
            use_type_invariant(&*self);
            lemma_insert_distinct(self@, key@, value@);
        }
        let mut map = fields_map_new();
        std::mem::swap(&mut self.map, &mut map);
        let r = fields_map_insert(&mut map, key, value);
        std::mem::swap(&mut self.map, &mut map);
        r
    }

    /// The field at position `index`, if there are that many.
    pub fn get_index(&self, index: usize) -> (r: Option<(&RbSymbol, &RbAny)>)
        ensures
            match r {
                Some((k, v)) => index < self@.len() && k@ == self@[index as int].0 && v@
                    == self@[index as int].1,
                None => index >= self@.len(),
            },
    {
        fields_map_get_index(&self.map, index)
    }

    /// The position of the field named `key`.
    pub fn get_index_of(&self, key: &RbSymbol) -> (r: Option<usize>)
        ensures
            match r {
                Some(i) => spec_position(self@, key@) == Some(i as int),
                None => spec_position(self@, key@) is None,
            },
    {
        fields_map_get_index_of(&self.map, key)
    }

    /// The value of the field named `key`.
    pub fn get(&self, key: &RbSymbol) -> (r: Option<&RbAny>)
        ensures
            match spec_position(self@, key@) {
                Some(i) => r matches Some(v) && v@ == self@[i].1,
                None => r is None,
            },
    {
        proof {
            lemma_position(self@, key@);
        }
        match self.get_index_of(key) {
            Some(i) => match self.get_index(i) {
                Some((_, v)) => Some(v),
                None => None,
            },
            None => None,
        }
    }

    /// Whether a field is named `key`.
    pub fn contains_key(&self, key: &RbSymbol) -> (r: bool)
        ensures
            r == spec_position(self@, key@).is_some(),
    {
        self.get_index_of(key).is_some()
    }
}

} // verus!
