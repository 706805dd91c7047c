//! Floating-point numbers, held as the numeral that the wire carries.
//!
//! The format stores a float as text. A float value here is such a numeral:
//! bytes that are known to follow the grammar below, so that turning them
//! into a machine float can not fail.
//!
//! ```text
//! Float  ::= Sign? ( 'inf' | 'infinity' | 'nan' | Number )
//! Number ::= ( Digit+ | Digit+ '.' Digit* | Digit* '.' Digit+ ) Exp?
//! Exp    ::= 'e' Sign? Digit+
//! Sign   ::= [+-]
//! Digit  ::= [0-9]
//! ```
//!
//! Letters match without regard to case.

use vstd::prelude::*;
use crate::error::{TResult, ThurgoodError};

verus! {

/// `0` to `9`.
pub open spec fn is_digit(b: u8) -> bool {
    48 <= b <= 57
}

/// `+` or `-`.
pub open spec fn is_sign(b: u8) -> bool {
    b == 43 || b == 45
}

/// The lower-case form of an ASCII letter; any other byte as it is.
pub open spec fn lower(b: u8) -> u8 {
    if 65 <= b <= 90 {
        (b + 32) as u8
    } else {
        b
    }
}

/// The end of the longest run of digits that starts at `i`.
pub open spec fn digits_end(s: Seq<u8>, i: int) -> int
    decreases s.len() - i,
{
    if 0 <= i < s.len() && is_digit(s[i]) {
        digits_end(s, i + 1)
    } else {
        i
    }
}

/// Where the numeral proper starts: after the sign, if there is one.
pub open spec fn after_sign(s: Seq<u8>) -> int {
    if s.len() > 0 && is_sign(s[0]) {
        1
    } else {
        0
    }
}

/// From `i` to the end, `s` spells `inf`.
pub open spec fn is_inf_at(s: Seq<u8>, i: int) -> bool {
    &&& 0 <= i
    &&& s.len() == i + 3
    &&& lower(s[i]) == 105
    &&& lower(s[i + 1]) == 110
    &&& lower(s[i + 2]) == 102
}

/// From `i` to the end, `s` spells `infinity`.
pub open spec fn is_infinity_at(s: Seq<u8>, i: int) -> bool {
    &&& 0 <= i
    &&& s.len() == i + 8
    &&& lower(s[i]) == 105
    &&& lower(s[i + 1]) == 110
    &&& lower(s[i + 2]) == 102
    &&& lower(s[i + 3]) == 105
    &&& lower(s[i + 4]) == 110
    &&& lower(s[i + 5]) == 105
    &&& lower(s[i + 6]) == 116
    &&& lower(s[i + 7]) == 121
}

/// From `i` to the end, `s` spells `nan`.
pub open spec fn is_nan_at(s: Seq<u8>, i: int) -> bool {
    &&& 0 <= i
    &&& s.len() == i + 3
    &&& lower(s[i]) == 110
    &&& lower(s[i + 1]) == 97
    &&& lower(s[i + 2]) == 110
}

/// From `i` to the end, `s` is an exponent: `e`, an optional sign, and one
/// digit or more.
pub open spec fn is_exponent_at(s: Seq<u8>, i: int) -> bool {
    &&& 0 <= i < s.len()
    &&& lower(s[i]) == 101
    &&& {
        let j = if i + 1 < s.len() && is_sign(s[i + 1]) {
            i + 2
        } else {
            i + 1
        };
        j < s.len() && digits_end(s, j) == s.len()
    }
}

/// From `i` to the end, `s` is a number: digits with at most one point among
/// them, at least one digit in all, and then perhaps an exponent.
pub open spec fn is_number_at(s: Seq<u8>, i: int) -> bool {
    let a = digits_end(s, i);
    if a < s.len() && s[a] == 46 {
        let b = digits_end(s, a + 1);
        (a > i || b > a + 1) && (b == s.len() || is_exponent_at(s, b))
    } else {
        a > i && (a == s.len() || is_exponent_at(s, a))
    }
}

/// The bytes are a numeral of the grammar.
pub open spec fn spec_is_float(s: Seq<u8>) -> bool {
    let i = after_sign(s);
    is_inf_at(s, i) || is_infinity_at(s, i) || is_nan_at(s, i) || is_number_at(s, i)
}

/// The numeral denotes no number (`nan`, with or without a sign).
pub open spec fn spec_is_nan(s: Seq<u8>) -> bool {
    is_nan_at(s, after_sign(s))
}

/// The bytes up to the first zero byte, or all of them if there is none.
pub open spec fn spec_until_nul(s: Seq<u8>) -> Seq<u8>
    decreases s.len(),
{
    if s.len() == 0 || s[0] == 0 {
        Seq::empty()
    } else {
        seq![s[0]] + spec_until_nul(s.skip(1))
    }
}

/// A run of digits is made of digits, and ends within the bytes.
pub proof fn lemma_digits_run(s: Seq<u8>, i: int)
    requires
        0 <= i <= s.len(),
    ensures
        i <= digits_end(s, i) <= s.len(),
        forall|k: int| i <= k < digits_end(s, i) ==> is_digit(#[trigger] s[k]),
    decreases s.len() - i,
{
    if i < s.len() && is_digit(s[i]) {
        lemma_digits_run(s, i + 1);
    }
}

/// No byte of a numeral is zero.
pub proof fn lemma_float_no_nul(s: Seq<u8>)
    requires
        spec_is_float(s),
    ensures
        forall|k: int| 0 <= k < s.len() ==> #[trigger] s[k] != 0,
{
    let i = after_sign(s);
    if is_inf_at(s, i) || is_infinity_at(s, i) || is_nan_at(s, i) {
    } else {
        lemma_digits_run(s, i);
        let a = digits_end(s, i);
        if a < s.len() && s[a] == 46 {
            lemma_digits_run(s, a + 1);
            let b = digits_end(s, a + 1);
            if b != s.len() {
                lemma_exponent_no_nul(s, b);
            }
        } else if a != s.len() {
            lemma_exponent_no_nul(s, a);
        }
    }
}

/// No byte of an exponent is zero.
pub proof fn lemma_exponent_no_nul(s: Seq<u8>, i: int)
    requires
        is_exponent_at(s, i),
    ensures
        forall|k: int| i <= k < s.len() ==> #[trigger] s[k] != 0,
{
    let j = if i + 1 < s.len() && is_sign(s[i + 1]) {
        i + 2
    } else {
        i + 1
    };
    lemma_digits_run(s, j);
}

/// Bytes of which none is zero are all before the first zero byte.
pub proof fn lemma_until_nul_all(s: Seq<u8>)
    requires
        forall|k: int| 0 <= k < s.len() ==> #[trigger] s[k] != 0,
    ensures
        spec_until_nul(s) == s,
    decreases s.len(),
{
    if s.len() > 0 {
        let rest = s.skip(1);
        assert forall|k: int| 0 <= k < rest.len() implies #[trigger] rest[k] != 0 by {
            assert(rest[k] == s[k + 1]);
        }
        lemma_until_nul_all(rest);
        assert(seq![s[0]] + rest =~= s);
    } else {
        assert(spec_until_nul(s) =~= s);
    }
}

fn lower_byte(b: u8) -> (r: u8)
    ensures
        r == lower(b),
{
    if 65 <= b && b <= 90 {
        b + 32
    } else {
        b
    }
}

pub(crate) fn scan_digits(s: &[u8], i: usize) -> (r: usize)
    requires
        i <= s@.len(),
    ensures
        r == digits_end(s@, i as int),
        i <= r <= s@.len(),
{
    let mut j: usize = i;
    while j < s.len() && 48 <= s[j] && s[j] <= 57
        invariant
            i <= j <= s@.len(),
            digits_end(s@, i as int) == digits_end(s@, j as int),
        decreases s@.len() - j,
    {
        j = j + 1;
    }
    j
}

fn scan_exponent(s: &[u8], i: usize) -> (r: bool)
    requires
        i < s@.len(),
    ensures
        r == is_exponent_at(s@, i as int),
{
    if lower_byte(s[i]) != 101 {
        return false;
    }
    let j: usize = if i + 1 < s.len() && (s[i + 1] == 43 || s[i + 1] == 45) {
        i + 2
    } else {
        i + 1
    };
    j < s.len() && scan_digits(s, j) == s.len()
}

fn scan_number(s: &[u8], i: usize) -> (r: bool)
    requires
        i <= s@.len(),
    ensures
        r == is_number_at(s@, i as int),
{
    let a = scan_digits(s, i);
    if a < s.len() && s[a] == 46 {
        let b = scan_digits(s, a + 1);
        (a > i || b > a + 1) && (b == s.len() || scan_exponent(s, b))
    } else {
        a > i && (a == s.len() || scan_exponent(s, a))
    }
}

pub(crate) fn scan_word(s: &[u8], i: usize) -> (r: (bool, bool))
    requires
        i <= s@.len(),
    ensures
        r.0 == (is_inf_at(s@, i as int) || is_infinity_at(s@, i as int)),
        r.1 == is_nan_at(s@, i as int),
{
    let n = s.len() - i;
    if n == 3 {
        let a = lower_byte(s[i]);
        let b = lower_byte(s[i + 1]);
        let c = lower_byte(s[i + 2]);
        (a == 105 && b == 110 && c == 102, a == 110 && b == 97 && c == 110)
    } else if n == 8 {
        let ok = lower_byte(s[i]) == 105 && lower_byte(s[i + 1]) == 110 && lower_byte(s[i + 2])
            == 102 && lower_byte(s[i + 3]) == 105 && lower_byte(s[i + 4]) == 110 && lower_byte(
            s[i + 5],
        ) == 105 && lower_byte(s[i + 6]) == 116 && lower_byte(s[i + 7]) == 121;
        (ok, false)
    } else {
        (false, false)
    }
}

/// Whether the bytes are a numeral of the grammar.
pub fn is_float_text(s: &[u8]) -> (r: bool)
    ensures
        r == spec_is_float(s@),
{
    let i: usize = if s.len() > 0 && (s[0] == 43 || s[0] == 45) {
        1
    } else {
        0
    };
    let (inf, nan) = scan_word(s, i);
    inf || nan || scan_number(s, i)
}

/// The bytes before the first zero byte, or all of them if there is none.
pub fn until_nul(s: &[u8]) -> (r: Vec<u8>)
    ensures
        r@ == spec_until_nul(s@),
{
    let mut out: Vec<u8> = Vec::new();
    let mut i: usize = 0;
    proof {
        assert(s@.skip(0) =~= s@);
        assert(out@ + spec_until_nul(s@) =~= spec_until_nul(s@));
    }
    while i < s.len() && s[i] != 0
        invariant
            0 <= i <= s@.len(),
            spec_until_nul(s@) == out@ + spec_until_nul(s@.skip(i as int)),
        decreases s@.len() - i,
    {
        let ghost rest = s@.skip(i as int);
        assert(rest[0] == s@[i as int]);
        assert(rest.skip(1) =~= s@.skip(i as int + 1));
        assert(out@ + (seq![rest[0]] + spec_until_nul(rest.skip(1))) =~= out@.push(s@[i as int])
            + spec_until_nul(rest.skip(1)));
        out.push(s[i]);
        i = i + 1;
    }
    proof {
        let rest = s@.skip(i as int);
        if i < s@.len() {
            assert(rest[0] == s@[i as int]);
        }
        assert(spec_until_nul(rest) =~= Seq::<u8>::empty());
        assert(out@ + Seq::<u8>::empty() =~= out@);
    }
    out
}

/// A float, as its numeral.
#[derive(Debug, PartialEq, Eq, Hash)]
pub struct RbFloat {
    text: Vec<u8>,
}

impl View for RbFloat {
    type V = Seq<u8>;

    closed spec fn view(&self) -> Seq<u8> {
        self.text@
    }
}

impl Clone for RbFloat {
    fn clone(&self) -> (r: Self)
        ensures
            r@ == self@,
    {
        proof {
            use_type_invariant(self);
        }
        RbFloat { text: self.text.clone() }
    }
}

impl RbFloat {
    #[verifier::type_invariant]
    closed spec fn inv(self) -> bool {
        spec_is_float(self.text@)
    }

    /// The float that the numeral `text` denotes; `ParseFloat` if the bytes
    /// are no numeral.
    pub fn parse(text: &[u8]) -> (r: TResult<RbFloat>)
        ensures
            match r {
                Ok(f) => spec_is_float(text@) && f@ == text@,
                Err(e) => !spec_is_float(text@) && e == ThurgoodError::ParseFloat,
            },
    {
        if is_float_text(text) {
            Ok(RbFloat { text: vstd::slice::slice_to_vec(text) })
        } else {
            Err(ThurgoodError::ParseFloat)
        }
    }

    /// The float `1.0`.
    pub fn one() -> (r: RbFloat)
        ensures
            r@ == seq![49u8, 46u8, 48u8],
            spec_is_float(r@),
    {
        let mut text: Vec<u8> = Vec::new();
        text.push(49);
        text.push(46);
        text.push(48);
        proof {
            let s = text@;
            assert(s =~= seq![49u8, 46u8, 48u8]);
            assert(digits_end(s, 3) == 3);
            assert(digits_end(s, 2) == 3);
            assert(digits_end(s, 1) == 1);
            assert(digits_end(s, 0) == 1);
            assert(is_number_at(s, 0));
        }
        RbFloat { text }
    }

    /// The numeral. It follows the grammar.
    pub fn as_bytes(&self) -> (r: &[u8])
        ensures
            r@ == self@,
            spec_is_float(self@),
    {
        proof {
            use_type_invariant(self);
        }
        self.text.as_slice()
    }

    /// Whether this float is no number.
    pub fn is_nan(&self) -> (r: bool)
        ensures
            r == spec_is_nan(self@),
    {
        let s = self.text.as_slice();
        let i: usize = if s.len() > 0 && (s[0] == 43 || s[0] == 45) {
            1
        } else {
            0
        };
        scan_word(s, i).1
    }
}

} // verus!
