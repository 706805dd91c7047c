//! Interned byte-string symbols.

use vstd::prelude::*;
use vstd::utf8::{decode_utf8, encode_utf8, valid_utf8};
use std::rc::Rc;

verus! {

/// A symbol such as `:key`: an immutable byte string, not necessarily valid
/// UTF-8. Symbols are common and often repeated, so the bytes are shared and
/// a clone is cheap. Two symbols are equal when their bytes are.
#[derive(Debug, PartialEq, Eq, Hash, PartialOrd, Ord)]
pub struct RbSymbol {
    data: Rc<Vec<u8>>,
}

impl View for RbSymbol {
    type V = Seq<u8>;

    closed spec fn view(&self) -> Seq<u8> {
        self.data@
    }
}

impl Clone for RbSymbol {
    /// A second handle on the same bytes.
    fn clone(&self) -> (r: Self)
        ensures
            r == *self,
    {
        RbSymbol { data: self.data.clone() }
    }
}

impl Default for RbSymbol {
    /// The symbol without bytes.
    fn default() -> (r: Self)
        ensures
            r@ == Seq::<u8>::empty(),
    {
        RbSymbol { data: Rc::new(Vec::new()) }
    }
}

/// `std::str::from_utf8`, with the error dropped. The standard library
/// documents that it succeeds exactly on well-formed UTF-8 and that the
/// string it returns consists of the very bytes it was given.
#[verifier::external_body]
pub(crate) fn str_from_utf8(buf: &[u8]) -> (r: Option<&str>)
    ensures
        r is Some <==> valid_utf8(buf@),
        r matches Some(s) ==> s@ == decode_utf8(buf@),
{
    std::str::from_utf8(buf).ok()
}

impl RbSymbol {
    /// Constructs a symbol from raw bytes.
    pub fn new(data: Vec<u8>) -> (r: RbSymbol)
        ensures
            r@ == data@,
    {
        RbSymbol { data: Rc::new(data) }
    }

    /// The raw bytes of the symbol.
    pub fn as_bytes(&self) -> (r: &[u8])
        ensures
            r@ == self@,
    {
        self.data.as_slice()
    }

    /// The symbol as a string, if its bytes are UTF-8.
    pub fn as_str(&self) -> (r: Option<&str>)
        ensures
            r is Some <==> valid_utf8(self@),
            r matches Some(s) ==> s@ == decode_utf8(self@),
    {
        str_from_utf8(self.data.as_slice())
    }

    /// Constructs a symbol from the UTF-8 bytes of a string.
    pub fn from_str(v: &str) -> (r: RbSymbol)
        ensures
            r@ == encode_utf8(v@),
    {
        RbSymbol { data: Rc::new(v.as_bytes_vec()) }
    }

    /// Whether two symbols have the same bytes.
    pub fn same(&self, other: &RbSymbol) -> (r: bool)
        ensures
            r == (self@ == other@),
    {
        bytes_equal(self.data.as_slice(), other.data.as_slice())
    }
}

/// Whether two byte strings are equal.
pub fn bytes_equal(a: &[u8], b: &[u8]) -> (r: bool)
    ensures
        r == (a@ == b@),
{
    if a.len() != b.len() {
        return false;
    }
    let mut i: usize = 0;
    while i < a.len()
        invariant
            a@.len() == b@.len(),
            0 <= i <= a@.len(),
            forall|j: int| 0 <= j < i ==> a@[j] == b@[j],
        decreases a@.len() - i,
    {
        if a[i] != b[i] {
            return false;
        }
        i = i + 1;
    }
    assert(a@ =~= b@);
    true
}

} // verus!
