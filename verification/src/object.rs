//! Objects with named fields, and the small envelopes.

use vstd::prelude::*;
use crate::fields::RbFields;
use crate::ordered::{spec_insert, spec_position};
use crate::symbol::RbSymbol;
use crate::value::{RbAny, Value};

verus! {

/// An object (or struct): the name of its class and its fields. Fields are
/// encoded in the order in which they were added.
#[derive(Debug)]
pub struct RbObject {
    /// The name of the class.
    pub name: RbSymbol,
    /// The fields, in order.
    pub fields: RbFields,
}

impl View for RbObject {
    type V = (Seq<u8>, Seq<(Seq<u8>, Value)>);

    open spec fn view(&self) -> (Seq<u8>, Seq<(Seq<u8>, Value)>) {
        (self.name@, self.fields@)
    }
}

impl Clone for RbObject {
    fn clone(&self) -> (r: Self)
        ensures
            r.name@ == self.name@,
            r.fields@ == self.fields@,
    {
        RbObject { name: self.name.clone(), fields: self.fields.clone() }
    }
}

/// The fields after inserting the first `n` of the given pairs, in order.
pub open spec fn spec_extend(
    fields: Seq<(Seq<u8>, Value)>,
    pairs: Seq<(Seq<u8>, Value)>,
    n: int,
) -> Seq<(Seq<u8>, Value)>
    decreases n,
{
    if n <= 0 {
        fields
    } else {
        spec_insert(spec_extend(fields, pairs, n - 1), pairs[n - 1].0, pairs[n - 1].1)
    }
}

/// The models of a slice of pairs of a symbol and a value.
pub open spec fn spec_pairs(items: Seq<(RbSymbol, RbAny)>) -> Seq<(Seq<u8>, Value)> {
    Seq::new(items.len(), |i: int| (items[i].0@, items[i].1@))
}

impl RbObject {
    /// An object of the class `name`, without fields.
    pub fn new(name: &RbSymbol) -> (r: RbObject)
        ensures
            r.name@ == name@,
            r.fields@ == Seq::<(Seq<u8>, Value)>::empty(),
    {
        RbObject { name: name.clone(), fields: RbFields::new() }
    }

    /// An object of the class `name` with the given fields, inserted in
    /// their order.
    pub fn new_from_slice(name: RbSymbol, items: &[(RbSymbol, RbAny)]) -> (r: RbObject)
        ensures
            r.name@ == name@,
            r.fields@ == spec_extend(Seq::empty(), spec_pairs(items@), items@.len() as int),
    {
        let mut fields = RbFields::new();
        let mut i: usize = 0;
        while i < items.len()
            invariant
                0 <= i <= items@.len(),
                fields@ == spec_extend(Seq::empty(), spec_pairs(items@), i as int),
            decreases items@.len() - i,
        {
            let key = items[i].0.clone();
            let value = items[i].1.clone();
            fields.insert(key, value);
            i = i + 1;
        }
        RbObject { name, fields }
    }

    /// The value of the field named `key`.
    pub fn get(&self, key: &RbSymbol) -> (r: Option<&RbAny>)
        ensures
            match spec_position(self.fields@, key@) {
                Some(i) => r matches Some(v) && v@ == self.fields@[i].1,
                None => r is None,
            },
    {
        self.fields.get(key)
    }

    /// Sets the field named `key`. A field that is present keeps its place
    /// and its old value is returned; a new field comes last.
    pub fn insert(&mut self, key: RbSymbol, value: RbAny) -> (r: Option<RbAny>)
        ensures
            final(self).name == old(self).name,
            final(self).fields@ == spec_insert(old(self).fields@, key@, value@),
            match spec_position(old(self).fields@, key@) {
                Some(i) => r matches Some(v) && v@ == old(self).fields@[i].1,
                None => r is None,
            },
    {
        self.fields.insert(key, value)
    }

    /// Inserts each of the given fields, in their order.
    pub fn extend_from_pairs(&mut self, pairs: &RbFields)
        ensures
            final(self).name == old(self).name,
            final(self).fields@ == spec_extend(old(self).fields@, pairs@, pairs@.len() as int),
    {
        let n = pairs.len();
        let mut i: usize = 0;
        while i < n
            invariant
                0 <= i <= n,
                n == pairs@.len(),
                self.name == old(self).name,
                self.fields@ == spec_extend(old(self).fields@, pairs@, i as int),
            decreases n - i,
        {
            match pairs.get_index(i) {
                Some((k, v)) => {
                    self.fields.insert(k.clone(), v.clone());
                },
                None => {},
            }
            i = i + 1;
        }
    }
}

/// A name with one value: the shape of the data, user-class and
/// user-marshal envelopes.
#[derive(Debug)]
pub struct RbClass {
    pub name: RbSymbol,
    pub data: RbAny,
}

impl View for RbClass {
    type V = (Seq<u8>, Value);

    open spec fn view(&self) -> (Seq<u8>, Value) {
        (self.name@, self.data@)
    }
}

impl Clone for RbClass {
    fn clone(&self) -> (r: Self)
        ensures
            r.name@ == self.name@,
            r.data@ == self.data@,
    {
        RbClass { name: self.name.clone(), data: self.data.clone() }
    }
}

/// A name with the bytes that a class wrote for itself. The codec keeps the
/// bytes and never reads them.
#[derive(Debug)]
pub struct RbUserData {
    pub name: RbSymbol,
    pub data: Vec<u8>,
}

impl Clone for RbUserData {
    fn clone(&self) -> (r: Self)
        ensures
            r.name@ == self.name@,
            r.data@ == self.data@,
    {
        RbUserData { name: self.name.clone(), data: self.data.clone() }
    }
}

} // verus!
