//! Integers beyond 32 bits, as a sign and the bytes of a magnitude.

use vstd::prelude::*;
use num_bigint::{BigInt, Sign};

verus! {

/// The bytes without the zero bytes at their end.
pub open spec fn spec_strip(bytes: Seq<u8>) -> Seq<u8>
    decreases bytes.len(),
{
    if bytes.len() > 0 && bytes.last() == 0 {
        spec_strip(bytes.drop_last())
    } else {
        bytes
    }
}

/// The normal form of a little-endian magnitude: no zero byte at the end,
/// and the single byte zero for the number zero.
pub open spec fn spec_magnitude(bytes: Seq<u8>) -> Seq<u8> {
    let s = spec_strip(bytes);
    if s.len() == 0 {
        seq![0u8]
    } else {
        s
    }
}

/// A magnitude in normal form.
pub open spec fn is_normal(bytes: Seq<u8>) -> bool {
    bytes.len() >= 1 && (bytes.len() == 1 || bytes.last() != 0)
}

/// The magnitude bytes as they go on the wire: an even number of them, with
/// one zero byte added where the normal form has an odd number.
pub open spec fn spec_padded(bytes: Seq<u8>) -> Seq<u8> {
    if bytes.len() % 2 == 1 {
        bytes.push(0u8)
    } else {
        bytes
    }
}

/// The normal form is normal, and is no longer than the bytes given, but
/// for the number zero.
pub proof fn lemma_magnitude_normal(bytes: Seq<u8>)
    ensures
        is_normal(spec_magnitude(bytes)),
        spec_strip(bytes).len() <= bytes.len(),
    decreases bytes.len(),
{
    if bytes.len() > 0 && bytes.last() == 0 {
        lemma_magnitude_normal(bytes.drop_last());
    }
}

/// A normal form comes back from its padded bytes.
pub proof fn lemma_magnitude_of_padded(bytes: Seq<u8>)
    requires
        is_normal(bytes),
    ensures
        spec_magnitude(spec_padded(bytes)) == bytes,
        spec_magnitude(bytes) == bytes,
{
    assert(bytes.push(0u8).drop_last() =~= bytes);
    if bytes.last() == 0 {
        assert(bytes.drop_last() =~= Seq::<u8>::empty());
        assert(spec_strip(bytes.drop_last()) =~= Seq::<u8>::empty());
        assert(spec_strip(bytes) =~= Seq::<u8>::empty());
        assert(bytes =~= seq![0u8]);
    } else {
        assert(spec_strip(bytes) == bytes);
    }
    if bytes.len() % 2 == 1 {
        assert(spec_strip(bytes.push(0u8)) == spec_strip(bytes));
    }
}

/// `BigInt::from_bytes_le` on the sign and the bytes, and `BigInt::to_bytes_le`
/// on what it made. The first drops the zero bytes at the high end and takes
/// the sign off the number zero; the second gives the sign and the bytes
/// that are left, or the single byte zero for the number zero.
#[verifier::external_body]
fn bigint_normal_form(negative: bool, bytes: &[u8]) -> (r: (bool, Vec<u8>))
    ensures
        r.1@ == spec_magnitude(bytes@),
        r.0 == (negative && spec_magnitude(bytes@) != seq![0u8]),
{
    let sign = if negative { Sign::Minus } else { Sign::Plus };
    let (sign, magnitude) = BigInt::from_bytes_le(sign, bytes).to_bytes_le();
    match sign {
        Sign::Minus => (true, magnitude),
        Sign::NoSign => (false, magnitude),
        Sign::Plus => (false, magnitude),
    }
}

/// An integer of any size: a sign, and the magnitude as bytes, least
/// significant first, in normal form. Zero has no sign.
#[derive(Debug, PartialEq, Eq, Hash)]
pub struct RbBigInt {
    negative: bool,
    magnitude: Vec<u8>,
}

impl Clone for RbBigInt {
    fn clone(&self) -> (r: Self)
        ensures
            r.spec_negative() == self.spec_negative(),
            r.spec_bytes() == self.spec_bytes(),
    {
        proof {
            use_type_invariant(self);
        }
        RbBigInt { negative: self.negative, magnitude: self.magnitude.clone() }
    }
}

impl RbBigInt {
    #[verifier::type_invariant]
    closed spec fn inv(self) -> bool {
        is_normal(self.magnitude@) && (self.negative ==> self.magnitude@ != seq![0u8])
    }

    /// Whether the number is below zero.
    pub closed spec fn spec_negative(&self) -> bool {
        self.negative
    }

    /// The magnitude, least significant byte first, in normal form.
    pub closed spec fn spec_bytes(&self) -> Seq<u8> {
        self.magnitude@
    }

    /// The integer with the given sign and little-endian magnitude.
    pub fn from_bytes_le(negative: bool, bytes: &[u8]) -> (r: RbBigInt)
        ensures
            r.spec_bytes() == spec_magnitude(bytes@),
            r.spec_negative() == (negative && spec_magnitude(bytes@) != seq![0u8]),
    {
        proof {
            lemma_magnitude_normal(bytes@);
        }
        let (negative, magnitude) = bigint_normal_form(negative, bytes);
        RbBigInt { negative, magnitude }
    }

    /// Whether the number is below zero.
    pub fn is_negative(&self) -> (r: bool)
        ensures
            r == self.spec_negative(),
    {
        self.negative
    }

    /// The magnitude, least significant byte first. It is in normal form,
    /// and a number below zero is not zero.
    pub fn to_bytes_le(&self) -> (r: &[u8])
        ensures
            r@ == self.spec_bytes(),
            is_normal(self.spec_bytes()),
            self.spec_negative() ==> self.spec_bytes() != seq![0u8],
    {
        proof {
            use_type_invariant(self);
        }
        self.magnitude.as_slice()
    }
}

} // verus!
