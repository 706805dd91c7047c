//! The numbers that numerals denote, and their order.
//!
//! A numeral is a sign, a run of decimal digits with at most one point in
//! it, and a power of ten. Two numerals are compared as numbers by writing
//! both with the same power of ten, that is with zeros added after the
//! digits of the one with the greater power, and comparing the two runs of
//! digits as integers.

use vstd::prelude::*;
use crate::float::{
    after_sign, digits_end, is_digit, is_exponent_at, is_inf_at, is_infinity_at, is_number_at,
    is_sign, lemma_digits_run, spec_is_float, spec_is_nan,
};
use crate::rank::{
    bigint_shifted, decimal_magnitude, le_nat, ord_int, order_bigint, spec_bigint_value, Rank,
};
use crate::float::{scan_digits, scan_word, RbFloat};
use vstd::slice::slice_subrange;

verus! {

/// Every byte is a decimal digit.
pub open spec fn all_digits(s: Seq<u8>) -> bool {
    forall|i: int| 0 <= i < s.len() ==> is_digit(#[trigger] s[i])
}

/// The integer that a run of decimal digits denotes.
pub open spec fn dec_value(s: Seq<u8>) -> int
    decreases s.len(),
{
    if s.len() == 0 {
        0
    } else {
        10 * dec_value(s.drop_last()) + (s.last() as int - 48)
    }
}

/// A run of `n` zero digits; none if `n` is not positive.
pub open spec fn spec_zeros(n: int) -> Seq<u8> {
    Seq::new(
        if n > 0 {
            n as nat
        } else {
            0
        },
        |i: int| 48u8,
    )
}

/// Ten to the power `n`.
pub open spec fn pow10(n: nat) -> int
    decreases n,
{
    if n == 0 {
        1
    } else {
        10 * pow10((n - 1) as nat)
    }
}

/// The numeral is an infinity.
pub open spec fn spec_is_inf(s: Seq<u8>) -> bool {
    is_inf_at(s, after_sign(s)) || is_infinity_at(s, after_sign(s))
}

/// The numeral has a minus sign.
pub open spec fn spec_minus(s: Seq<u8>) -> bool {
    s.len() > 0 && s[0] == 45
}

/// Where the digits before the point end.
pub open spec fn spec_int_end(s: Seq<u8>) -> int {
    digits_end(s, after_sign(s))
}

/// The numeral has a point.
pub open spec fn spec_has_point(s: Seq<u8>) -> bool {
    spec_int_end(s) < s.len() && s[spec_int_end(s)] == 46
}

/// Where the digits of the number end.
pub open spec fn spec_frac_end(s: Seq<u8>) -> int {
    if spec_has_point(s) {
        digits_end(s, spec_int_end(s) + 1)
    } else {
        spec_int_end(s)
    }
}

/// The digits of the number: those before the point and those after it.
pub open spec fn spec_mantissa(s: Seq<u8>) -> Seq<u8> {
    if spec_has_point(s) {
        s.subrange(after_sign(s), spec_int_end(s)) + s.subrange(
            spec_int_end(s) + 1,
            spec_frac_end(s),
        )
    } else {
        s.subrange(after_sign(s), spec_int_end(s))
    }
}

/// How many digits stand after the point.
pub open spec fn spec_frac_len(s: Seq<u8>) -> int {
    if spec_has_point(s) {
        spec_frac_end(s) - (spec_int_end(s) + 1)
    } else {
        0
    }
}

/// Where the digits of the exponent start; the end of the numeral if it has
/// no exponent.
pub open spec fn spec_exp_start(s: Seq<u8>) -> int {
    let b = spec_frac_end(s);
    if b >= s.len() {
        s.len() as int
    } else if b + 1 < s.len() && is_sign(s[b + 1]) {
        b + 2
    } else {
        b + 1
    }
}

/// The exponent has a minus sign.
pub open spec fn spec_exp_minus(s: Seq<u8>) -> bool {
    spec_frac_end(s) + 1 < s.len() && s[spec_frac_end(s) + 1] == 45
}

/// The exponent; zero if the numeral has none.
pub open spec fn spec_exponent(s: Seq<u8>) -> int {
    let d = dec_value(s.subrange(spec_exp_start(s), s.len() as int));
    if spec_exp_minus(s) {
        -d
    } else {
        d
    }
}

/// The power of ten by which the integer of the digits is multiplied.
pub open spec fn spec_scale(s: Seq<u8>) -> int {
    spec_exponent(s) - spec_frac_len(s)
}

/// Where a numeral stands among the numbers: below or above all finite
/// numbers, below zero, zero, or above zero.
pub open spec fn spec_class(s: Seq<u8>) -> int {
    if spec_is_inf(s) {
        if spec_minus(s) {
            -2
        } else {
            2
        }
    } else if dec_value(spec_mantissa(s)) == 0 {
        0
    } else if spec_minus(s) {
        -1
    } else {
        1
    }
}

/// The order of the digits `x` times ten to the `j` and the digits `y`
/// times ten to the `k`: both are written with the smaller of the two
/// powers and compared as integers.
pub open spec fn ord_scaled(x: Seq<u8>, j: int, y: Seq<u8>, k: int) -> Rank {
    let m = if j < k {
        j
    } else {
        k
    };
    ord_int(dec_value(x + spec_zeros(j - m)), dec_value(y + spec_zeros(k - m)))
}

/// The order of the sizes of the numbers that two numerals denote.
pub open spec fn ord_magnitude(a: Seq<u8>, b: Seq<u8>) -> Rank {
    ord_scaled(spec_mantissa(a), spec_scale(a), spec_mantissa(b), spec_scale(b))
}

/// The order of the numbers that two numerals denote. Zero with a minus
/// sign is zero. Neither numeral is `nan`.
pub open spec fn ord_float(a: Seq<u8>, b: Seq<u8>) -> Rank {
    if spec_class(a) != spec_class(b) {
        ord_int(spec_class(a), spec_class(b))
    } else if spec_class(a) == 1 {
        ord_magnitude(a, b)
    } else if spec_class(a) == -1 {
        ord_magnitude(b, a)
    } else {
        Rank::Equal
    }
}

/// The order of two floats as numbers; none if one of them is no number.
pub open spec fn ord_numerals(a: Seq<u8>, b: Seq<u8>) -> Option<Rank> {
    if spec_is_nan(a) || spec_is_nan(b) {
        None
    } else {
        Some(ord_float(a, b))
    }
}

/// Powers of ten grow.
pub proof fn lemma_pow10_mono(a: nat, b: nat)
    requires
        a <= b,
    ensures
        1 <= pow10(a) <= pow10(b),
    decreases b,
{
    if a < b {
        lemma_pow10_mono(a, (b - 1) as nat);
    } else if a > 0 {
        lemma_pow10_mono((a - 1) as nat, (a - 1) as nat);
    }
}

/// A run of `n` digits denotes a number below ten to the `n`, and not below
/// ten to the `n - 1` if its first digit is not zero.
pub proof fn lemma_dec_bounds(x: Seq<u8>)
    requires
        all_digits(x),
    ensures
        0 <= dec_value(x) < pow10(x.len()),
        x.len() > 0 && x[0] != 48 ==> dec_value(x) >= pow10((x.len() - 1) as nat),
    decreases x.len(),
{
    if x.len() > 0 {
        let front = x.drop_last();
        assert(all_digits(front)) by {
            assert forall|i: int| 0 <= i < front.len() implies is_digit(#[trigger] front[i]) by {
                assert(front[i] == x[i]);
            }
        }
        assert(is_digit(x[x.len() - 1]));
        lemma_dec_bounds(front);
        if front.len() > 0 {
            assert(front[0] == x[0]);
        }
    }
}

/// Zeros before the digits change nothing.
pub proof fn lemma_dec_skip_zeros(x: Seq<u8>, n: int)
    requires
        0 <= n <= x.len(),
        forall|i: int| 0 <= i < n ==> #[trigger] x[i] == 48,
    ensures
        dec_value(x) == dec_value(x.skip(n)),
    decreases x.len(),
{
    if n == x.len() {
        assert(x.skip(n) =~= Seq::<u8>::empty());
        if x.len() > 0 {
            let front = x.drop_last();
            assert forall|i: int| 0 <= i < n - 1 implies #[trigger] front[i] == 48 by {
                assert(front[i] == x[i]);
            }
            lemma_dec_skip_zeros(front, n - 1);
            assert(front.skip(n - 1) =~= Seq::<u8>::empty());
            assert(x[x.len() - 1] == 48);
        }
    } else {
        let front = x.drop_last();
        assert forall|i: int| 0 <= i < n implies #[trigger] front[i] == 48 by {
            assert(front[i] == x[i]);
        }
        lemma_dec_skip_zeros(front, n);
        assert(x.skip(n).drop_last() =~= front.skip(n));
        assert(x.skip(n).last() == x.last());
    }
}

/// Of two runs of digits of one length, the one with the smaller digit in
/// the first place where they differ denotes the smaller number.
pub proof fn lemma_dec_lex(x: Seq<u8>, y: Seq<u8>, at: int)
    requires
        all_digits(x),
        all_digits(y),
        x.len() == y.len(),
        0 <= at < x.len(),
        forall|i: int| 0 <= i < at ==> x[i] == y[i],
        x[at] < y[at],
    ensures
        dec_value(x) < dec_value(y),
    decreases x.len(),
{
    let xf = x.drop_last();
    let yf = y.drop_last();
    assert(is_digit(x[x.len() - 1]) && is_digit(y[y.len() - 1]));
    if at == x.len() - 1 {
        assert(xf =~= yf);
    } else {
        assert(all_digits(xf)) by {
            assert forall|i: int| 0 <= i < xf.len() implies is_digit(#[trigger] xf[i]) by {
                assert(xf[i] == x[i]);
            }
        }
        assert(all_digits(yf)) by {
            assert forall|i: int| 0 <= i < yf.len() implies is_digit(#[trigger] yf[i]) by {
                assert(yf[i] == y[i]);
            }
        }
        assert forall|i: int| 0 <= i < at implies xf[i] == yf[i] by {
            assert(x[i] == y[i]);
        }
        lemma_dec_lex(xf, yf, at);
    }
}

/// Of two runs of digits, the shorter denotes the smaller number if the
/// longer does not start with zero.
pub proof fn lemma_dec_longer(x: Seq<u8>, y: Seq<u8>)
    requires
        all_digits(x),
        all_digits(y),
        x.len() < y.len(),
        y[0] != 48,
    ensures
        dec_value(x) < dec_value(y),
{
    lemma_dec_bounds(x);
    lemma_dec_bounds(y);
    lemma_pow10_mono(x.len(), (y.len() - 1) as nat);
}

/// The digits `s`, without zeros before them, times ten to the `j`, against
/// the digits `t` times ten to the `k`: what the digits `x` and `y` give,
/// of which `s` and `t` are what is left when the zeros at the front are
/// taken off.
pub proof fn lemma_scaled_stripped(
    x: Seq<u8>,
    s: Seq<u8>,
    j: int,
    y: Seq<u8>,
    t: Seq<u8>,
    k: int,
)
    requires
        all_digits(x),
        all_digits(y),
        s.len() <= x.len(),
        t.len() <= y.len(),
        s == x.skip(x.len() - s.len()),
        t == y.skip(y.len() - t.len()),
        forall|i: int| 0 <= i < x.len() - s.len() ==> #[trigger] x[i] == 48,
        forall|i: int| 0 <= i < y.len() - t.len() ==> #[trigger] y[i] == 48,
    ensures
        ord_scaled(x, j, y, k) == ord_scaled(s, j, t, k),
{
    let m = if j < k {
        j
    } else {
        k
    };
    let xz = x + spec_zeros(j - m);
    let yz = y + spec_zeros(k - m);
    let lx = x.len() - s.len();
    let ly = y.len() - t.len();
    assert forall|i: int| 0 <= i < lx implies #[trigger] xz[i] == 48 by {
        assert(xz[i] == x[i]);
    }
    assert forall|i: int| 0 <= i < ly implies #[trigger] yz[i] == 48 by {
        assert(yz[i] == y[i]);
    }
    lemma_dec_skip_zeros(xz, lx);
    lemma_dec_skip_zeros(yz, ly);
    assert(xz.skip(lx) =~= s + spec_zeros(j - m));
    assert(yz.skip(ly) =~= t + spec_zeros(k - m));
}

/// Digits followed by zeros are digits.
pub proof fn lemma_zeros_digits(s: Seq<u8>, n: int)
    requires
        all_digits(s),
    ensures
        all_digits(s + spec_zeros(n)),
        (s + spec_zeros(n)).len() == s.len() + (if n > 0 {
            n
        } else {
            0
        }),
{
    let z = s + spec_zeros(n);
    assert forall|i: int| 0 <= i < z.len() implies is_digit(#[trigger] z[i]) by {
        if i < s.len() {
            assert(z[i] == s[i]);
        } else {
            assert(z[i] == spec_zeros(n)[i - s.len()]);
        }
    }
}

/// Two numbers that start at different powers of ten: the one that starts
/// lower is the smaller. `s` and `t` are digits that do not start with
/// zero.
pub proof fn lemma_scaled_by_top(s: Seq<u8>, j: int, t: Seq<u8>, k: int)
    requires
        all_digits(s),
        all_digits(t),
        s.len() > 0,
        t.len() > 0,
        s[0] != 48,
        t[0] != 48,
        s.len() + j < t.len() + k,
    ensures
        ord_scaled(s, j, t, k) == Rank::Less,
        ord_scaled(t, k, s, j) == Rank::Greater,
{
    let m = if j < k {
        j
    } else {
        k
    };
    lemma_zeros_digits(s, j - m);
    lemma_zeros_digits(t, k - m);
    let sz = s + spec_zeros(j - m);
    let tz = t + spec_zeros(k - m);
    assert(tz[0] == t[0]);
    lemma_dec_longer(sz, tz);
}

/// The parts of a numeral that is no `nan`.
pub struct Numeral {
    /// The numeral has a minus sign.
    pub minus: bool,
    /// The numeral is an infinity.
    pub inf: bool,
    /// The digits of the number.
    pub digits: Vec<u8>,
    /// How many zeros stand at the front of the digits.
    pub lead: usize,
    /// How many of the digits stand after the point.
    pub frac_len: usize,
    /// Where the digits of the exponent start.
    pub exp_start: usize,
    /// The exponent has a minus sign.
    pub exp_minus: bool,
}

/// The parts are those of the numeral `s`.
pub open spec fn parts_of(r: Numeral, s: Seq<u8>) -> bool {
    &&& r.minus == spec_minus(s)
    &&& r.inf == spec_is_inf(s)
    &&& !r.inf ==> {
        &&& r.digits@ == spec_mantissa(s)
        &&& all_digits(r.digits@)
        &&& r.frac_len == spec_frac_len(s)
        &&& r.exp_start == spec_exp_start(s)
        &&& r.exp_start <= s.len()
        &&& r.exp_minus == spec_exp_minus(s)
        &&& all_digits(s.subrange(r.exp_start as int, s.len() as int))
        &&& r.lead <= r.digits@.len()
        &&& forall|i: int| 0 <= i < r.lead ==> #[trigger] r.digits@[i] == 48
        &&& r.lead < r.digits@.len() ==> r.digits@[r.lead as int] != 48
    }
}

/// Appends the bytes of `s` from `from` up to `to`.
fn append_range(dst: &mut Vec<u8>, s: &[u8], from: usize, to: usize)
    requires
        from <= to <= s@.len(),
    ensures
        final(dst)@ == old(dst)@ + s@.subrange(from as int, to as int),
{
    let mut i: usize = from;
    assert(s@.subrange(from as int, from as int) =~= Seq::<u8>::empty());
    assert(dst@ + Seq::<u8>::empty() =~= dst@);
    while i < to
        invariant
            from <= i <= to <= s@.len(),
            dst@ == old(dst)@ + s@.subrange(from as int, i as int),
        decreases to - i,
    {
        dst.push(s[i]);
        assert(s@.subrange(from as int, i as int + 1) =~= s@.subrange(from as int, i as int).push(
            s@[i as int],
        ));
        assert(old(dst)@ + s@.subrange(from as int, i as int + 1) =~= (old(dst)@ + s@.subrange(
            from as int,
            i as int,
        )).push(s@[i as int]));
        i = i + 1;
    }
}

/// Takes a numeral apart.
pub fn numeral_parts(s: &[u8]) -> (r: Numeral)
    requires
        spec_is_float(s@),
        !spec_is_nan(s@),
    ensures
        parts_of(r, s@),
{
    let start: usize = if s.len() > 0 && (s[0] == 43 || s[0] == 45) {
        1
    } else {
        0
    };
    let minus = s.len() > 0 && s[0] == 45;
    let (inf, nan) = scan_word(s, start);
    let mut digits: Vec<u8> = Vec::new();
    if inf {
        return Numeral {
            minus,
            inf: true,
            digits,
            lead: 0,
            frac_len: 0,
            exp_start: 0,
            exp_minus: false,
        };
    }
    assert(is_number_at(s@, start as int));
    proof {
        lemma_digits_run(s@, start as int);
    }
    let a = scan_digits(s, start);
    append_range(&mut digits, s, start, a);
    assert(digits@ =~= s@.subrange(start as int, a as int));
    let mut b: usize = a;
    let mut frac_len: usize = 0;
    if a < s.len() && s[a] == 46 {
        proof {
            lemma_digits_run(s@, a as int + 1);
        }
        b = scan_digits(s, a + 1);
        append_range(&mut digits, s, a + 1, b);
        frac_len = b - (a + 1);
    }
    assert(digits@ == spec_mantissa(s@));
    assert(all_digits(digits@)) by {
        assert forall|i: int| 0 <= i < digits@.len() implies is_digit(#[trigger] digits@[i]) by {
            if i < a - start {
                assert(digits@[i] == s@[start + i]);
            } else {
                assert(digits@[i] == s@[a + 1 + (i - (a - start))]);
            }
        }
    }
    let mut exp_start: usize = s.len();
    let mut exp_minus = false;
    if b < s.len() {
        assert(is_exponent_at(s@, b as int));
        exp_minus = b + 1 < s.len() && s[b + 1] == 45;
        exp_start = if b + 1 < s.len() && (s[b + 1] == 43 || s[b + 1] == 45) {
            b + 2
        } else {
            b + 1
        };
        proof {
            lemma_digits_run(s@, exp_start as int);
        }
    }
    assert(all_digits(s@.subrange(exp_start as int, s@.len() as int))) by {
        let e = s@.subrange(exp_start as int, s@.len() as int);
        assert forall|i: int| 0 <= i < e.len() implies is_digit(#[trigger] e[i]) by {
            assert(e[i] == s@[exp_start + i]);
        }
    }
    let mut lead: usize = 0;
    while lead < digits.len() && digits[lead] == 48
        invariant
            lead <= digits@.len(),
            forall|i: int| 0 <= i < lead ==> #[trigger] digits@[i] == 48,
        decreases digits@.len() - lead,
    {
        lead = lead + 1;
    }
    Numeral { minus, inf: false, digits, lead, frac_len, exp_start, exp_minus }
}

/// The bytes of the size of the exponent of a numeral, least significant
/// first.
fn exponent_bytes(p: &Numeral, s: &[u8]) -> (r: Vec<u8>)
    requires
        parts_of(*p, s@),
        !p.inf,
    ensures
        spec_bigint_value(p.exp_minus, r@) == spec_exponent(s@),
{
    if p.exp_start == s.len() {
        let mut r: Vec<u8> = Vec::new();
        r.push(0);
        proof {
            assert(s@.subrange(s@.len() as int, s@.len() as int) =~= Seq::<u8>::empty());
            assert(r@.skip(1) =~= Seq::<u8>::empty());
            assert(le_nat(r@.skip(1)) == 0);
            assert(le_nat(r@) == 0);
        }
        r
    } else {
        decimal_magnitude(slice_subrange(s, p.exp_start, s.len()))
    }
}

/// The order of the sizes of two numbers that are not zero.
fn order_sizes(pa: &Numeral, a: &[u8], pb: &Numeral, b: &[u8]) -> (r: Rank)
    requires
        parts_of(*pa, a@),
        parts_of(*pb, b@),
        !pa.inf,
        !pb.inf,
        pa.lead < pa.digits@.len(),
        pb.lead < pb.digits@.len(),
    ensures
        r == ord_magnitude(a@, b@),
{
    let na: usize = pa.digits.len() - pa.lead;
    let nb: usize = pb.digits.len() - pb.lead;
    let xa = exponent_bytes(pa, a);
    let xb = exponent_bytes(pb, b);
    let delta: i128 = (na as i128 - pa.frac_len as i128) - (nb as i128 - pb.frac_len as i128);
    let (sn, sm) = bigint_shifted(pa.exp_minus, xa.as_slice(), delta);
    let top = order_bigint(sn, sm.as_slice(), pb.exp_minus, xb.as_slice());
    let ghost x = pa.digits@;
    let ghost y = pb.digits@;
    let ghost sa = x.skip(pa.lead as int);
    let ghost sb = y.skip(pb.lead as int);
    let ghost j = spec_scale(a@);
    let ghost k = spec_scale(b@);
    proof {
        lemma_scaled_stripped(x, sa, j, y, sb, k);
        assert(all_digits(sa)) by {
            assert forall|i: int| 0 <= i < sa.len() implies is_digit(#[trigger] sa[i]) by {
                assert(sa[i] == x[pa.lead + i]);
            }
        }
        assert(all_digits(sb)) by {
            assert forall|i: int| 0 <= i < sb.len() implies is_digit(#[trigger] sb[i]) by {
                assert(sb[i] == y[pb.lead + i]);
            }
        }
        assert(sa[0] == x[pa.lead as int]);
        assert(sb[0] == y[pb.lead as int]);
    }
    match top {
        Rank::Less => {
            proof {
                lemma_scaled_by_top(sa, j, sb, k);
            }
            Rank::Less
        },
        Rank::Greater => {
            proof {
                lemma_scaled_by_top(sb, k, sa, j);
            }
            Rank::Greater
        },
        Rank::Equal => {
            let len: usize = if na < nb {
                nb
            } else {
                na
            };
            let ghost m = if j < k {
                j
            } else {
                k
            };
            let ghost xz = sa + spec_zeros(j - m);
            let ghost yz = sb + spec_zeros(k - m);
            proof {
                lemma_zeros_digits(sa, j - m);
                lemma_zeros_digits(sb, k - m);
                assert(na + j == nb + k);
                assert(xz.len() == len && yz.len() == len);
            }
            let mut i: usize = 0;
            while i < len
                invariant
                    0 <= i <= len,
                    len == xz.len(),
                    len == yz.len(),
                    na == sa.len(),
                    nb == sb.len(),
                    pa.lead + na == pa.digits.len(),
                    pb.lead + nb == pb.digits.len(),
                    sa == pa.digits@.skip(pa.lead as int),
                    sb == pb.digits@.skip(pb.lead as int),
                    xz == sa + spec_zeros(j - m),
                    yz == sb + spec_zeros(k - m),
                    all_digits(xz),
                    all_digits(yz),
                    forall|q: int| 0 <= q < i ==> xz[q] == yz[q],
                    ord_magnitude(a@, b@) == ord_int(dec_value(xz), dec_value(yz)),
                decreases len - i,
            {
                let da: u8 = if i < na {
                    pa.digits[pa.lead + i]
                } else {
                    48
                };
                let db: u8 = if i < nb {
                    pb.digits[pb.lead + i]
                } else {
                    48
                };
                proof {
                    if i < na {
                        assert(xz[i as int] == sa[i as int]);
                    } else {
                        assert(xz[i as int] == spec_zeros(j - m)[i - na]);
                    }
                    if i < nb {
                        assert(yz[i as int] == sb[i as int]);
                    } else {
                        assert(yz[i as int] == spec_zeros(k - m)[i - nb]);
                    }
                    assert(da == xz[i as int] && db == yz[i as int]);
                }
                if da < db {
                    proof {
                        lemma_dec_lex(xz, yz, i as int);
                    }
                    return Rank::Less;
                }
                if da > db {
                    proof {
                        lemma_dec_lex(yz, xz, i as int);
                    }
                    return Rank::Greater;
                }
                i = i + 1;
            }
            assert(xz =~= yz);
            Rank::Equal
        },
    }
}

/// Where a numeral stands among the numbers.
fn class_of(p: &Numeral, s: &[u8]) -> (r: i8)
    requires
        parts_of(*p, s@),
    ensures
        r == spec_class(s@),
        (r == 1 || r == -1) ==> !p.inf && p.lead < p.digits@.len(),
{
    if p.inf {
        if p.minus {
            -2
        } else {
            2
        }
    } else {
        proof {
            lemma_dec_skip_zeros(p.digits@, p.lead as int);
            let rest = p.digits@.skip(p.lead as int);
            if p.lead < p.digits@.len() {
                assert(all_digits(rest)) by {
                    assert forall|i: int| 0 <= i < rest.len() implies is_digit(
                        #[trigger] rest[i],
                    ) by {
                        assert(rest[i] == p.digits@[p.lead + i]);
                    }
                }
                assert(rest[0] == p.digits@[p.lead as int]);
                lemma_dec_bounds(rest);
                lemma_pow10_mono(0, (rest.len() - 1) as nat);
            } else {
                assert(rest =~= Seq::<u8>::empty());
            }
        }
        if p.lead == p.digits.len() {
            0
        } else if p.minus {
            -1
        } else {
            1
        }
    }
}

/// Compares the numbers that two numerals denote.
pub fn order_numerals(a: &[u8], b: &[u8]) -> (r: Rank)
    requires
        spec_is_float(a@),
        spec_is_float(b@),
        !spec_is_nan(a@),
        !spec_is_nan(b@),
    ensures
        r == ord_float(a@, b@),
{
    let pa = numeral_parts(a);
    let pb = numeral_parts(b);
    let ca = class_of(&pa, a);
    let cb = class_of(&pb, b);
    if ca < cb {
        Rank::Less
    } else if ca > cb {
        Rank::Greater
    } else if ca == 1 {
        order_sizes(&pa, a, &pb, b)
    } else if ca == -1 {
        order_sizes(&pb, b, &pa, a)
    } else {
        Rank::Equal
    }
}

/// Compares two floats as numbers. There is no answer if one of them is no
/// number.
pub fn order_floats(a: &RbFloat, b: &RbFloat) -> (r: Option<Rank>)
    ensures
        r == ord_numerals(a@, b@),
{
    if a.is_nan() || b.is_nan() {
        None
    } else {
        Some(order_numerals(a.as_bytes(), b.as_bytes()))
    }
}

} // verus!
