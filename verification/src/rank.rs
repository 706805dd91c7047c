//! Three-way comparison of plain values.

use vstd::prelude::*;
use num_bigint::{BigInt, Sign};
use std::cmp::Ordering;
use crate::decimal::{all_digits, dec_value};

verus! {

/// The outcome of a comparison.
#[derive(Clone, Copy, PartialEq, Eq, Debug, Structural)]
pub enum Rank {
    Less,
    Equal,
    Greater,
}

/// A machine-size number as an integer.
pub open spec fn spec_ix(i: usize) -> int {
    i as int
}

/// The order of two integers.
pub open spec fn ord_int(a: int, b: int) -> Rank {
    if a < b {
        Rank::Less
    } else if a == b {
        Rank::Equal
    } else {
        Rank::Greater
    }
}

/// The order of two byte strings: that of the first place where they
/// differ; a string comes before the strings that it starts.
pub open spec fn ord_bytes(a: Seq<u8>, b: Seq<u8>) -> Rank
    decreases a.len(),
{
    if a.len() == 0 {
        if b.len() == 0 {
            Rank::Equal
        } else {
            Rank::Less
        }
    } else if b.len() == 0 {
        Rank::Greater
    } else if a[0] != b[0] {
        ord_int(a[0] as int, b[0] as int)
    } else {
        ord_bytes(a.skip(1), b.skip(1))
    }
}

/// The number that bytes denote, least significant byte first.
pub open spec fn le_nat(bytes: Seq<u8>) -> int
    decreases bytes.len(),
{
    if bytes.len() == 0 {
        0
    } else {
        bytes[0] as int + 256 * le_nat(bytes.skip(1))
    }
}

/// The number that a sign and a little-endian magnitude denote.
pub open spec fn spec_bigint_value(negative: bool, magnitude: Seq<u8>) -> int {
    if negative {
        -le_nat(magnitude)
    } else {
        le_nat(magnitude)
    }
}

/// Compares two 32-bit integers.
pub fn order_i32(a: i32, b: i32) -> (r: Rank)
    ensures
        r == ord_int(a as int, b as int),
{
    if a < b {
        Rank::Less
    } else if a == b {
        Rank::Equal
    } else {
        Rank::Greater
    }
}

/// Compares two sets of flags, as numbers.
pub fn order_u32(a: u32, b: u32) -> (r: Rank)
    ensures
        r == ord_int(a as int, b as int),
{
    if a < b {
        Rank::Less
    } else if a == b {
        Rank::Equal
    } else {
        Rank::Greater
    }
}

/// Compares two sizes or places.
pub fn order_usize(a: usize, b: usize) -> (r: Rank)
    ensures
        r == ord_int(a as int, b as int),
{
    if a < b {
        Rank::Less
    } else if a == b {
        Rank::Equal
    } else {
        Rank::Greater
    }
}

/// Compares two byte strings.
pub fn order_bytes(a: &[u8], b: &[u8]) -> (r: Rank)
    ensures
        r == ord_bytes(a@, b@),
{
    let mut i: usize = 0;
    proof {
        assert(a@.skip(0) =~= a@);
        assert(b@.skip(0) =~= b@);
    }
    while i < a.len() && i < b.len()
        invariant
            0 <= i <= a@.len(),
            i <= b@.len(),
            ord_bytes(a@, b@) == ord_bytes(a@.skip(i as int), b@.skip(i as int)),
        decreases a@.len() - i,
    {
        let ghost x = a@.skip(i as int);
        let ghost y = b@.skip(i as int);
        assert(x[0] == a@[i as int] && y[0] == b@[i as int]);
        assert(x.skip(1) =~= a@.skip(i as int + 1));
        assert(y.skip(1) =~= b@.skip(i as int + 1));
        if a[i] != b[i] {
            return if a[i] < b[i] {
                Rank::Less
            } else {
                Rank::Greater
            };
        }
        i = i + 1;
    }
    if i < b.len() {
        Rank::Less
    } else if i < a.len() {
        Rank::Greater
    } else {
        Rank::Equal
    }
}

/// `BigInt::from_bytes_le` on each sign and magnitude, and the `Ord` of
/// `BigInt` on the two: the order of the numbers that they denote.
#[verifier::external_body]
pub(crate) fn order_bigint(a_negative: bool, a: &[u8], b_negative: bool, b: &[u8]) -> (r: Rank)
    ensures
        r == ord_int(spec_bigint_value(a_negative, a@), spec_bigint_value(b_negative, b@)),
{
    let x = BigInt::from_bytes_le(if a_negative { Sign::Minus } else { Sign::Plus }, a);
    let y = BigInt::from_bytes_le(if b_negative { Sign::Minus } else { Sign::Plus }, b);
    match x.cmp(&y) {
        Ordering::Less => Rank::Less,
        Ordering::Equal => Rank::Equal,
        Ordering::Greater => Rank::Greater,
    }
}

/// `BigInt::parse_bytes` with radix 10 on a run of decimal digits, and
/// `BigInt::to_bytes_le` on what it made: the bytes of the number that the
/// digits denote, least significant first.
#[verifier::external_body]
pub(crate) fn decimal_magnitude(digits: &[u8]) -> (r: Vec<u8>)
    requires
        digits@.len() > 0,
        all_digits(digits@),
    ensures
        le_nat(r@) == dec_value(digits@),
{
    match BigInt::parse_bytes(digits, 10) {
        Some(v) => v.to_bytes_le().1,
        None => Vec::new(),
    }
}

/// `BigInt::from_bytes_le` on a sign and a magnitude, `+` with the `BigInt`
/// of a machine integer, and `BigInt::to_bytes_le` on the sum: the sign and
/// the bytes of the number plus `delta`.
#[verifier::external_body]
pub(crate) fn bigint_shifted(negative: bool, magnitude: &[u8], delta: i128) -> (r: (bool, Vec<u8>))
    ensures
        spec_bigint_value(r.0, r.1@) == spec_bigint_value(negative, magnitude@) + delta,
{
    let x = BigInt::from_bytes_le(if negative { Sign::Minus } else { Sign::Plus }, magnitude);
    let (sign, bytes) = (x + BigInt::from(delta)).to_bytes_le();
    match sign {
        Sign::Minus => (true, bytes),
        Sign::NoSign => (false, bytes),
        Sign::Plus => (false, bytes),
    }
}

/// The outcome as the standard library names it.
pub fn rank_to_ordering(r: Rank) -> (o: Ordering)
    ensures
        o == (match r {
            Rank::Less => Ordering::Less,
            Rank::Equal => Ordering::Equal,
            Rank::Greater => Ordering::Greater,
        }),
{
    match r {
        Rank::Less => Ordering::Less,
        Rank::Equal => Ordering::Equal,
        Rank::Greater => Ordering::Greater,
    }
}

} // verus!
