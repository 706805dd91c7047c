//! The coarse type of a value.

use vstd::prelude::*;

verus! {

/// Indicates the coarse type of a value. This is meant for diagnostics and
/// display, and has no bearing on encoding or decoding.
#[derive(Clone, Copy, PartialEq, Eq, Debug, Structural)]
pub enum RbType {
    Int,
    Bool,
    Float,
    Nil,
    BigInt,
    Symbol,
    Array,
    Str,
    Regex,
    Hash,
    Struct,
    Object,
    ClassRef,
    ModuleRef,
    ClassModuleRef,
    Data,
    UserClass,
    UserData,
    UserMarshal,
    ObjectRef,
    Extended,
}

} // verus!
