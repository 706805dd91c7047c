//! Handles and inline values.

use vstd::prelude::*;
use vstd::utf8::encode_utf8;
use crate::symbol::RbSymbol;

verus! {

/// The identity of an object of a graph. Two handles name the same object
/// exactly when they are equal.
#[derive(Debug, Clone, Copy, PartialEq, Eq, Hash, PartialOrd, Ord)]
pub struct RefId(usize);

impl View for RefId {
    type V = int;

    closed spec fn view(&self) -> int {
        self.0 as int
    }
}

impl RefId {
    /// The handle of the object at place `index` of a graph.
    pub(crate) fn at(index: usize) -> (r: RefId)
        ensures
            r@ == index,
    {
        RefId(index)
    }

    /// The place in its graph of the object that the handle names.
    pub fn index(&self) -> (r: usize)
        ensures
            r == self@,
    {
        self.0
    }
}

/// The number that stands for the identity of a handle: handles of one graph
/// are the same object exactly when this number is the same.
pub fn rc_get_ptr(reff: &RefId) -> (r: usize)
    ensures
        r == reff@,
{
    reff.0
}

/// The mathematical model of an [`RbAny`]: a scalar, or the identity of an
/// object.
pub enum Value {
    Nil,
    False,
    True,
    Int(i32),
    Symbol(Seq<u8>),
    Ref(int),
}

/// Any value: a scalar held inline, or a handle on an object of a graph.
#[derive(Debug, PartialEq, Eq, Hash, PartialOrd, Ord)]
pub enum RbAny {
    Int(i32),
    True,
    False,
    Nil,
    Symbol(RbSymbol),
    Ref(RefId),
}

impl View for RbAny {
    type V = Value;

    open spec fn view(&self) -> Value {
        match self {
            RbAny::Int(v) => Value::Int(*v),
            RbAny::True => Value::True,
            RbAny::False => Value::False,
            RbAny::Nil => Value::Nil,
            RbAny::Symbol(s) => Value::Symbol(s@),
            RbAny::Ref(id) => Value::Ref(id@),
        }
    }
}

impl Clone for RbAny {
    fn clone(&self) -> (r: Self)
        ensures
            r == *self,
    {
        match self {
            RbAny::Int(v) => RbAny::Int(*v),
            RbAny::True => RbAny::True,
            RbAny::False => RbAny::False,
            RbAny::Nil => RbAny::Nil,
            RbAny::Symbol(s) => RbAny::Symbol(s.clone()),
            RbAny::Ref(id) => RbAny::Ref(*id),
        }
    }
}

impl Default for RbAny {
    fn default() -> (r: Self)
        ensures
            r == RbAny::Nil,
    {
        RbAny::Nil
    }
}

impl RbAny {
    /// Constructs a symbol from the given string and returns it as a value.
    pub fn symbol_from(name: &str) -> (r: RbAny)
        ensures
            r@ == Value::Symbol(encode_utf8(name@)),
    {
        RbAny::Symbol(RbSymbol::from_str(name))
    }

    /// Whether this value is nil.
    pub fn is_nil(&self) -> (r: bool)
        ensures
            r == (self@ == Value::Nil),
    {
        match self {
            RbAny::Nil => true,
            _ => false,
        }
    }

    /// The integer, if this value is one.
    pub fn as_int(&self) -> (r: Option<i32>)
        ensures
            r == (match self@ {
                Value::Int(v) => Some(v),
                _ => None,
            }),
    {
        match self {
            RbAny::Int(v) => Some(*v),
            _ => None,
        }
    }

    /// The boolean, if this value is one.
    pub fn as_bool(&self) -> (r: Option<bool>)
        ensures
            r == (match self@ {
                Value::True => Some(true),
                Value::False => Some(false),
                _ => None,
            }),
    {
        match self {
            RbAny::True => Some(true),
            RbAny::False => Some(false),
            _ => None,
        }
    }

    /// The symbol, if this value is one.
    pub fn as_symbol(&self) -> (r: Option<&RbSymbol>)
        ensures
            match r {
                Some(s) => *self == RbAny::Symbol(*s),
                None => !(self@ is Symbol),
            },
    {
        match self {
            RbAny::Symbol(s) => Some(s),
            _ => None,
        }
    }

    /// The handle, if this value names an object.
    pub fn as_rc(&self) -> (r: Option<RefId>)
        ensures
            r == (match *self {
                RbAny::Ref(id) => Some(id),
                _ => None,
            }),
    {
        match self {
            RbAny::Ref(id) => Some(*id),
            _ => None,
        }
    }

    /// Whether two values are the same scalar or name the same object.
    pub fn same(&self, other: &RbAny) -> (r: bool)
        ensures
            r == (self@ == other@),
    {
        match (self, other) {
            (RbAny::Int(a), RbAny::Int(b)) => *a == *b,
            (RbAny::True, RbAny::True) => true,
            (RbAny::False, RbAny::False) => true,
            (RbAny::Nil, RbAny::Nil) => true,
            (RbAny::Symbol(a), RbAny::Symbol(b)) => a.same(b),
            (RbAny::Ref(a), RbAny::Ref(b)) => a.0 == b.0,
            _ => false,
        }
    }
}

impl From<i32> for RbAny {
    fn from(v: i32) -> (r: RbAny) {
        RbAny::Int(v)
    }
}

impl vstd::std_specs::convert::FromSpecImpl<i32> for RbAny {
    open spec fn obeys_from_spec() -> bool {
        true
    }

    open spec fn from_spec(v: i32) -> RbAny {
        RbAny::Int(v)
    }
}

impl From<bool> for RbAny {
    fn from(v: bool) -> (r: RbAny) {
        if v {
            RbAny::True
        } else {
            RbAny::False
        }
    }
}

impl vstd::std_specs::convert::FromSpecImpl<bool> for RbAny {
    open spec fn obeys_from_spec() -> bool {
        true
    }

    open spec fn from_spec(v: bool) -> RbAny {
        if v {
            RbAny::True
        } else {
            RbAny::False
        }
    }
}

impl From<RbSymbol> for RbAny {
    fn from(v: RbSymbol) -> (r: RbAny) {
        RbAny::Symbol(v)
    }
}

impl vstd::std_specs::convert::FromSpecImpl<RbSymbol> for RbAny {
    open spec fn obeys_from_spec() -> bool {
        true
    }

    open spec fn from_spec(v: RbSymbol) -> RbAny {
        RbAny::Symbol(v)
    }
}

impl RbSymbol {
    /// A clone of this symbol, as a value.
    pub fn as_any(&self) -> (r: RbAny)
        ensures
            r == RbAny::Symbol(*self),
    {
        RbAny::Symbol(self.clone())
    }
}

} // verus!
