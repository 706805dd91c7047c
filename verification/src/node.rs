//! The objects of a graph.

use vstd::prelude::*;
use crate::bigint::RbBigInt;
use crate::fields::RbFields;
use crate::decimal::{ord_numerals, order_floats};
use crate::float::RbFloat;
use crate::rank::Rank;
use crate::hash::RbHash;
use crate::object::{spec_extend, spec_pairs, RbClass, RbObject, RbUserData};
use crate::rb_type::RbType;
use crate::symbol::{bytes_equal, RbSymbol};
use crate::value::{RbAny, Value};

verus! {

/// The mathematical model of an object: what an [`RbRef`] holds, with
/// sequences for its collections.
#[allow(inconsistent_fields)]
pub enum Node {
    Float(Seq<u8>),
    BigInt { negative: bool, magnitude: Seq<u8> },
    Array(Seq<Value>),
    Str(Seq<char>),
    StrI { content: Seq<u8>, metadata: Seq<(Seq<u8>, Value)> },
    Regex { content: Seq<char>, flags: u32 },
    RegexI { content: Seq<u8>, flags: u32, metadata: Seq<(Seq<u8>, Value)> },
    Hash { entries: Seq<(Value, Value)>, default: Option<Value> },
    Struct { name: Seq<u8>, fields: Seq<(Seq<u8>, Value)> },
    Object { name: Seq<u8>, fields: Seq<(Seq<u8>, Value)> },
    ClassRef(Seq<char>),
    ModuleRef(Seq<char>),
    ClassModuleRef(Seq<char>),
    Data { name: Seq<u8>, data: Value },
    UserClass { name: Seq<u8>, data: Value },
    UserData { name: Seq<u8>, data: Seq<u8> },
    UserMarshal { name: Seq<u8>, data: Value },
    Extended { module: Seq<u8>, object: Value },
}

/// The models of a sequence of values.
pub open spec fn spec_values(items: Seq<RbAny>) -> Seq<Value> {
    Seq::new(items.len(), |i: int| items[i]@)
}

/// An object of a graph: everything that is not a scalar.
#[derive(Debug)]
#[allow(inconsistent_fields)]
pub enum RbRef {
    /// A float, as its numeral.
    Float(RbFloat),
    /// An integer beyond 32 bits.
    BigInt(RbBigInt),
    /// An array of values.
    Array(Vec<RbAny>),
    /// A UTF-8 string.
    Str(String),
    /// A string in some other encoding, or with additional fields.
    StrI { content: Vec<u8>, metadata: RbFields },
    /// A UTF-8 regex.
    Regex { content: String, flags: u32 },
    /// A regex in some other encoding, or with additional fields.
    RegexI { content: Vec<u8>, flags: u32, metadata: RbFields },
    /// A hash.
    Hash(RbHash),
    /// A struct: as an object, but for its tag.
    Struct(RbObject),
    /// An object: as a struct, but for its tag.
    Object(RbObject),
    ClassRef(String),
    ModuleRef(String),
    ClassModuleRef(String),
    /// A data object.
    Data(RbClass),
    /// An instance of a subclass of string, regex, array or hash.
    UserClass(RbClass),
    /// Bytes that a class wrote for itself.
    UserData(RbUserData),
    /// A value that a class chose to stand for its instance.
    UserMarshal(RbClass),
    /// An object extended by a module.
    Extended { module: RbSymbol, object: RbAny },
}

impl View for RbRef {
    type V = Node;

    open spec fn view(&self) -> Node {
        match self {
            RbRef::Float(v) => Node::Float(v@),
            RbRef::BigInt(v) => Node::BigInt {
                negative: v.spec_negative(),
                magnitude: v.spec_bytes(),
            },
            RbRef::Array(v) => Node::Array(spec_values(v@)),
            RbRef::Str(v) => Node::Str(v@),
            RbRef::StrI { content, metadata } => Node::StrI {
                content: content@,
                metadata: metadata@,
            },
            RbRef::Regex { content, flags } => Node::Regex { content: content@, flags: *flags },
            RbRef::RegexI { content, flags, metadata } => Node::RegexI {
                content: content@,
                flags: *flags,
                metadata: metadata@,
            },
            RbRef::Hash(v) => Node::Hash { entries: v@, default: v.spec_default() },
            RbRef::Struct(v) => Node::Struct { name: v.name@, fields: v.fields@ },
            RbRef::Object(v) => Node::Object { name: v.name@, fields: v.fields@ },
            RbRef::ClassRef(v) => Node::ClassRef(v@),
            RbRef::ModuleRef(v) => Node::ModuleRef(v@),
            RbRef::ClassModuleRef(v) => Node::ClassModuleRef(v@),
            RbRef::Data(v) => Node::Data { name: v.name@, data: v.data@ },
            RbRef::UserClass(v) => Node::UserClass { name: v.name@, data: v.data@ },
            RbRef::UserData(v) => Node::UserData { name: v.name@, data: v.data@ },
            RbRef::UserMarshal(v) => Node::UserMarshal { name: v.name@, data: v.data@ },
            RbRef::Extended { module, object } => Node::Extended {
                module: module@,
                object: object@,
            },
        }
    }
}

/// Whether two strings have the same text.
pub fn same_text(a: &String, b: &String) -> (r: bool)
    ensures
        r == (a@ == b@),
{
    *a == *b
}

/// A clone of the values of an array.
pub fn clone_values(items: &Vec<RbAny>) -> (r: Vec<RbAny>)
    ensures
        spec_values(r@) == spec_values(items@),
{
    let mut out: Vec<RbAny> = Vec::new();
    let mut i: usize = 0;
    while i < items.len()
        invariant
            0 <= i <= items@.len(),
            out@.len() == i,
            forall|j: int| 0 <= j < i ==> out@[j]@ == items@[j]@,
        decreases items@.len() - i,
    {
        out.push(items[i].clone());
        i = i + 1;
    }
    assert(spec_values(out@) =~= spec_values(items@));
    out
}

impl Clone for RbRef {
    fn clone(&self) -> (r: Self)
        ensures
            r@ == self@,
    {
        match self {
            RbRef::Float(v) => RbRef::Float(v.clone()),
            RbRef::BigInt(v) => RbRef::BigInt(v.clone()),
            RbRef::Array(v) => RbRef::Array(clone_values(v)),
            RbRef::Str(v) => RbRef::Str(v.clone()),
            RbRef::StrI { content, metadata } => RbRef::StrI {
                content: content.clone(),
                metadata: metadata.clone(),
            },
            RbRef::Regex { content, flags } => RbRef::Regex {
                content: content.clone(),
                flags: *flags,
            },
            RbRef::RegexI { content, flags, metadata } => RbRef::RegexI {
                content: content.clone(),
                flags: *flags,
                metadata: metadata.clone(),
            },
            RbRef::Hash(v) => RbRef::Hash(v.clone()),
            RbRef::Struct(v) => RbRef::Struct(v.clone()),
            RbRef::Object(v) => RbRef::Object(v.clone()),
            RbRef::ClassRef(v) => RbRef::ClassRef(v.clone()),
            RbRef::ModuleRef(v) => RbRef::ModuleRef(v.clone()),
            RbRef::ClassModuleRef(v) => RbRef::ClassModuleRef(v.clone()),
            RbRef::Data(v) => RbRef::Data(v.clone()),
            RbRef::UserClass(v) => RbRef::UserClass(v.clone()),
            RbRef::UserData(v) => RbRef::UserData(v.clone()),
            RbRef::UserMarshal(v) => RbRef::UserMarshal(v.clone()),
            RbRef::Extended { module, object } => RbRef::Extended {
                module: module.clone(),
                object: object.clone(),
            },
        }
    }
}

/// The coarse type of an object.
pub open spec fn spec_node_type(n: Node) -> RbType {
    match n {
        Node::Float(_) => RbType::Float,
        Node::BigInt { .. } => RbType::BigInt,
        Node::Array(_) => RbType::Array,
        Node::Str(_) => RbType::Str,
        Node::StrI { .. } => RbType::Str,
        Node::Regex { .. } => RbType::Regex,
        Node::RegexI { .. } => RbType::Regex,
        Node::Hash { .. } => RbType::Hash,
        Node::Struct { .. } => RbType::Struct,
        Node::Object { .. } => RbType::Object,
        Node::ClassRef(_) => RbType::ClassRef,
        Node::ModuleRef(_) => RbType::ModuleRef,
        Node::ClassModuleRef(_) => RbType::ClassModuleRef,
        Node::Data { .. } => RbType::Data,
        Node::UserClass { .. } => RbType::UserClass,
        Node::UserData { .. } => RbType::UserData,
        Node::UserMarshal { .. } => RbType::UserMarshal,
        Node::Extended { .. } => RbType::Extended,
    }
}

/// The place of a kind of object in the fixed order of kinds: the kinds in
/// the alphabetical order of their names.
pub open spec fn spec_ordinal(n: Node) -> int {
    match n {
        Node::Array(_) => 0,
        Node::BigInt { .. } => 1,
        Node::ClassModuleRef(_) => 2,
        Node::ClassRef(_) => 3,
        Node::Data { .. } => 4,
        Node::Extended { .. } => 5,
        Node::Float(_) => 6,
        Node::Hash { .. } => 7,
        Node::ModuleRef(_) => 8,
        Node::Object { .. } => 9,
        Node::Regex { .. } => 10,
        Node::RegexI { .. } => 11,
        Node::Str(_) => 12,
        Node::StrI { .. } => 13,
        Node::Struct { .. } => 14,
        Node::UserClass { .. } => 15,
        Node::UserData { .. } => 16,
        Node::UserMarshal { .. } => 17,
    }
}

/// Whether a kind of object can hold handles on other objects.
pub open spec fn spec_contains_ref(n: Node) -> bool {
    match n {
        Node::BigInt { .. } => false,
        Node::ClassModuleRef(_) => false,
        Node::ClassRef(_) => false,
        Node::ModuleRef(_) => false,
        Node::Float(_) => false,
        Node::Regex { .. } => false,
        Node::Str(_) => false,
        Node::UserData { .. } => false,
        _ => true,
    }
}

/// Equality of the objects that hold no values. Objects of different kinds
/// are unequal, but a class-or-module name equals a class name or a module
/// name of the same text. Two floats are equal when they denote the same
/// number. For two objects of one kind that can hold values there is no
/// answer.
pub open spec fn spec_partial_eq(a: Node, b: Node) -> Option<bool> {
    match (a, b) {
        (
            Node::BigInt { negative: an, magnitude: am },
            Node::BigInt { negative: bn, magnitude: bm },
        ) => Some(an == bn && am == bm),
        (Node::ClassModuleRef(x), Node::ClassModuleRef(y)) => Some(x == y),
        (Node::ClassModuleRef(x), Node::ClassRef(y)) => Some(x == y),
        (Node::ClassModuleRef(x), Node::ModuleRef(y)) => Some(x == y),
        (Node::ClassRef(x), Node::ClassModuleRef(y)) => Some(x == y),
        (Node::ModuleRef(x), Node::ClassModuleRef(y)) => Some(x == y),
        (Node::Float(x), Node::Float(y)) => Some(ord_numerals(x, y) == Some(Rank::Equal)),
        (Node::Regex { content: x, flags: f }, Node::Regex { content: y, flags: g }) => Some(
            x == y && f == g,
        ),
        (Node::Str(x), Node::Str(y)) => Some(x == y),
        (Node::UserData { name: x, data: d }, Node::UserData { name: y, data: e }) => Some(
            x == y && d == e,
        ),
        _ => if spec_ordinal(a) != spec_ordinal(b) {
            Some(false)
        } else {
            None
        },
    }
}

impl RbRef {
    /// The coarse type of this object.
    pub fn get_type(&self) -> (r: RbType)
        ensures
            r == spec_node_type(self@),
    {
        match self {
            RbRef::Float(_) => RbType::Float,
            RbRef::BigInt(_) => RbType::BigInt,
            RbRef::Array(_) => RbType::Array,
            RbRef::Str(_) => RbType::Str,
            RbRef::StrI { .. } => RbType::Str,
            RbRef::Regex { .. } => RbType::Regex,
            RbRef::RegexI { .. } => RbType::Regex,
            RbRef::Hash(_) => RbType::Hash,
            RbRef::Struct(_) => RbType::Struct,
            RbRef::Object(_) => RbType::Object,
            RbRef::ClassRef(_) => RbType::ClassRef,
            RbRef::ModuleRef(_) => RbType::ModuleRef,
            RbRef::ClassModuleRef(_) => RbType::ClassModuleRef,
            RbRef::Data(_) => RbType::Data,
            RbRef::UserClass(_) => RbType::UserClass,
            RbRef::UserData(_) => RbType::UserData,
            RbRef::UserMarshal(_) => RbType::UserMarshal,
            RbRef::Extended { .. } => RbType::Extended,
        }
    }

    /// A UTF-8 regex.
    pub fn new_regex(content: String, flags: u32) -> (r: RbRef)
        ensures
            r@ == (Node::Regex { content: content@, flags }),
    {
        RbRef::Regex { content, flags }
    }

    /// An object of the class `name` with the given fields, inserted in
    /// their order.
    pub fn new_object(name: RbSymbol, pairs: &[(RbSymbol, RbAny)]) -> (r: RbRef)
        ensures
            r@ == (Node::Object {
                name: name@,
                fields: spec_extend(Seq::empty(), spec_pairs(pairs@), pairs@.len() as int),
            }),
    {
        RbRef::Object(RbObject::new_from_slice(name, pairs))
    }

    /// The place of this object's kind in the fixed order of kinds. The
    /// order has no meaning of its own: it only makes objects of different
    /// kinds comparable.
    pub fn ordinal(&self) -> (r: usize)
        ensures
            r == spec_ordinal(self@),
    {
        match self {
            RbRef::Array(_) => 0,
            RbRef::BigInt(_) => 1,
            RbRef::ClassModuleRef(_) => 2,
            RbRef::ClassRef(_) => 3,
            RbRef::Data(_) => 4,
            RbRef::Extended { .. } => 5,
            RbRef::Float(_) => 6,
            RbRef::Hash(_) => 7,
            RbRef::ModuleRef(_) => 8,
            RbRef::Object(_) => 9,
            RbRef::Regex { .. } => 10,
            RbRef::RegexI { .. } => 11,
            RbRef::Str(_) => 12,
            RbRef::StrI { .. } => 13,
            RbRef::Struct(_) => 14,
            RbRef::UserClass(_) => 15,
            RbRef::UserData(_) => 16,
            RbRef::UserMarshal(_) => 17,
        }
    }

    /// Tests for equality, for the kinds of object that hold no values.
    pub fn partial_eq(&self, other: &RbRef) -> (r: Option<bool>)
        ensures
            r == spec_partial_eq(self@, other@),
    {
        match (self, other) {
            (RbRef::BigInt(a), RbRef::BigInt(b)) => Some(
                a.is_negative() == b.is_negative() && bytes_equal(
                    a.to_bytes_le(),
                    b.to_bytes_le(),
                ),
            ),
            (RbRef::ClassModuleRef(a), RbRef::ClassModuleRef(b)) => Some(same_text(a, b)),
            (RbRef::ClassModuleRef(a), RbRef::ClassRef(b)) => Some(same_text(a, b)),
            (RbRef::ClassModuleRef(a), RbRef::ModuleRef(b)) => Some(same_text(a, b)),
            (RbRef::ClassRef(a), RbRef::ClassModuleRef(b)) => Some(same_text(a, b)),
            (RbRef::ModuleRef(a), RbRef::ClassModuleRef(b)) => Some(same_text(a, b)),
            (RbRef::Float(a), RbRef::Float(b)) => Some(
                match order_floats(a, b) {
                    Some(Rank::Equal) => true,
                    _ => false,
                },
            ),
            (
                RbRef::Regex { content: a, flags: f },
                RbRef::Regex { content: b, flags: g },
            ) => Some(same_text(a, b) && *f == *g),
            (RbRef::Str(a), RbRef::Str(b)) => Some(same_text(a, b)),
            (RbRef::UserData(a), RbRef::UserData(b)) => Some(
                a.name.same(&b.name) && bytes_equal(a.data.as_slice(), b.data.as_slice()),
            ),
            _ => if self.ordinal() != other.ordinal() {
                Some(false)
            } else {
                None
            },
        }
    }

    /// Whether this kind of object can hold handles on other objects.
    pub fn contains_ref(&self) -> (r: bool)
        ensures
            r == spec_contains_ref(self@),
    {
        match self {
            RbRef::BigInt(_) => false,
            RbRef::ClassModuleRef(_) => false,
            RbRef::ClassRef(_) => false,
            RbRef::ModuleRef(_) => false,
            RbRef::Float(_) => false,
            RbRef::Regex { .. } => false,
            RbRef::Str(_) => false,
            RbRef::UserData(_) => false,
            _ => true,
        }
    }

    /// The float, if this object is one.
    pub fn as_float(&self) -> (r: Option<&RbFloat>)
        ensures
            r == (match self {
                RbRef::Float(v) => Some(v),
                _ => None,
            }),
    {
        match self {
            RbRef::Float(v) => Some(v),
            _ => None,
        }
    }

    /// The values, if this object is an array.
    pub fn as_array(&self) -> (r: Option<&Vec<RbAny>>)
        ensures
            r == (match self {
                RbRef::Array(v) => Some(v),
                _ => None,
            }),
    {
        match self {
            RbRef::Array(v) => Some(v),
            _ => None,
        }
    }

    /// The hash, if this object is one.
    pub fn as_hash(&self) -> (r: Option<&RbHash>)
        ensures
            r == (match self {
                RbRef::Hash(v) => Some(v),
                _ => None,
            }),
    {
        match self {
            RbRef::Hash(v) => Some(v),
            _ => None,
        }
    }

    /// The object, if this is one (and not a struct).
    pub fn as_object(&self) -> (r: Option<&RbObject>)
        ensures
            r == (match self {
                RbRef::Object(v) => Some(v),
                _ => None,
            }),
    {
        match self {
            RbRef::Object(v) => Some(v),
            _ => None,
        }
    }

    /// The struct, if this object is one.
    pub fn as_struct(&self) -> (r: Option<&RbObject>)
        ensures
            r == (match self {
                RbRef::Struct(v) => Some(v),
                _ => None,
            }),
    {
        match self {
            RbRef::Struct(v) => Some(v),
            _ => None,
        }
    }

    /// The string, if this object is a UTF-8 string.
    pub fn as_string(&self) -> (r: Option<&String>)
        ensures
            r == (match self {
                RbRef::Str(v) => Some(v),
                _ => None,
            }),
    {
        match self {
            RbRef::Str(v) => Some(v),
            _ => None,
        }
    }
}

impl RbObject {
    /// This object, as an object of a graph.
    pub fn into_object(self) -> (r: RbRef)
        ensures
            r == RbRef::Object(self),
    {
        RbRef::Object(self)
    }

    /// This object, as a struct of a graph.
    pub fn into_struct(self) -> (r: RbRef)
        ensures
            r == RbRef::Struct(self),
    {
        RbRef::Struct(self)
    }
}

} // verus!
