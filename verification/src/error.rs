//! The failure taxonomy of the codec.

use vstd::prelude::*;
use crate::rb_type::RbType;

verus! {

/// Every way in which decoding or graph construction can fail. Each kind is
/// plain data, so contracts can name the exact error a function returns.
#[derive(Clone, Copy, PartialEq, Eq, Debug, Structural)]
pub enum ThurgoodError {
    /// The input ended before the bytes that the format calls for.
    IO,
    /// Bytes that the format requires to be UTF-8 are not.
    Utf8,
    /// The body of a float is not a numeral.
    ParseFloat,
    /// The stream does not open with version 4.8; holds the two bytes found.
    Version(u8, u8),
    /// A symbol reference names an index that the symbol table lacks.
    BadSymbolRef(usize),
    /// An object reference names an index that the object table lacks, or a
    /// handle names no object of the graph it is used with.
    BadObjectRef(usize),
    /// The byte after an instance tag is not a string, regex or object tag.
    BadInstanceType(u8),
    /// A position that calls for one type of value holds another.
    UnexpectedType { expected: RbType, found: RbType },
    /// A tag byte that the format does not define.
    BadTypeByte(u8),
}

impl ThurgoodError {
    pub fn unexpected_type(expected: RbType, found: RbType) -> (r: Self)
        ensures
            r == (ThurgoodError::UnexpectedType { expected, found }),
    {
        ThurgoodError::UnexpectedType { expected, found }
    }
}

pub type TResult<T> = Result<T, ThurgoodError>;

} // verus!
