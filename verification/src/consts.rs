//! The tag bytes of the wire format.

use vstd::prelude::*;

verus! {

/// The byte `T`.
pub const T_TRUE: u8 = 84;

/// The byte `F`.
pub const T_FALSE: u8 = 70;

/// The byte `0`.
pub const T_NIL: u8 = 48;

/// The byte `i`.
pub const T_INT: u8 = 105;

/// The byte `:`.
pub const T_SYMBOL: u8 = 58;

/// The byte `;`.
pub const T_SYMBOL_REF: u8 = 59;

/// The byte `@`.
pub const T_OBJECT_REF: u8 = 64;

/// The byte `I`.
pub const T_INSTANCE: u8 = 73;

/// The byte `[`.
pub const T_ARRAY: u8 = 91;

/// The byte `l`.
pub const T_BIGNUM: u8 = 108;

/// The byte `c`.
pub const T_CLASS: u8 = 99;

/// The byte `m`.
pub const T_MODULE: u8 = 109;

/// The byte `M`.
pub const T_CLASS_MODULE: u8 = 77;

/// The byte `d`.
pub const T_DATA: u8 = 100;

/// The byte `f`.
pub const T_FLOAT: u8 = 102;

/// The byte `{`.
pub const T_HASH: u8 = 123;

/// The byte `}`.
pub const T_HASH_DEFAULT: u8 = 125;

/// The byte `o`.
pub const T_OBJECT: u8 = 111;

/// The byte `/`.
pub const T_REGEX: u8 = 47;

/// The byte `"`.
pub const T_STRING: u8 = 34;

/// The byte `S`.
pub const T_STRUCT: u8 = 83;

/// The byte `C`.
pub const T_USER_CLASS: u8 = 67;

/// The byte `u`.
pub const T_USER_DEFINED: u8 = 117;

/// The byte `U`.
pub const T_USER_MARSHAL: u8 = 85;

/// The byte `e`.
pub const T_EXTENDED: u8 = 101;

} // verus!
