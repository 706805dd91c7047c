//! The signed variable-length integer that the format uses for small
//! integers, lengths, counts and table indices.

use vstd::prelude::*;
use crate::error::{TResult, ThurgoodError};

verus! {

/// 256 to the power `i`, for the exponents that a 32-bit integer needs.
pub open spec fn pow256(i: int) -> int {
    if i <= 0 {
        1
    } else if i == 1 {
        0x100
    } else if i == 2 {
        0x1_0000
    } else if i == 3 {
        0x100_0000
    } else {
        0x1_0000_0000
    }
}

/// The `k` low bytes of the natural number `n`, least significant first.
pub open spec fn le_bytes(n: int, k: int) -> Seq<u8> {
    Seq::new(k as nat, |i: int| ((n / pow256(i)) % 256) as u8)
}

/// The natural number that at most four bytes denote, least significant
/// byte first.
pub open spec fn le_value(s: Seq<u8>) -> int {
    (if s.len() > 0 { s[0] as int } else { 0 })
    + (if s.len() > 1 { s[1] as int * 0x100 } else { 0 })
    + (if s.len() > 2 { s[2] as int * 0x1_0000 } else { 0 })
    + (if s.len() > 3 { s[3] as int * 0x100_0000 } else { 0 })
}

/// A 32-bit pattern read as a signed integer.
pub open spec fn as_signed32(raw: int) -> int {
    if raw >= 0x8000_0000 { raw - 0x1_0000_0000 } else { raw }
}

/// How many bytes follow the first byte `b` of an encoded integer.
pub open spec fn spec_varint_extra(b: u8) -> int {
    if 1 <= b <= 4 {
        b as int
    } else if b >= 252 {
        256 - b as int
    } else {
        0
    }
}

/// The integer that the first byte `b` and the `spec_varint_extra(b)` bytes
/// `tail` after it denote.
pub open spec fn spec_varint_value(b: u8, tail: Seq<u8>) -> int {
    if b == 0 {
        0
    } else if 1 <= b <= 4 {
        as_signed32(le_value(tail))
    } else if 5 <= b <= 127 {
        b as int - 5
    } else if 128 <= b <= 251 {
        b as int - 256 + 5
    } else if b == 252 {
        as_signed32(le_value(tail))
    } else {
        le_value(tail) - pow256(256 - b as int)
    }
}

/// Decoding: the integer that starts at `pos` and the position after it, or
/// `IO` when the input ends too early.
pub open spec fn spec_read_int(bytes: Seq<u8>, pos: int) -> Result<(i32, int), ThurgoodError> {
    if !(0 <= pos < bytes.len()) {
        Err(ThurgoodError::IO)
    } else {
        let b = bytes[pos];
        let end = pos + 1 + spec_varint_extra(b);
        if end > bytes.len() {
            Err(ThurgoodError::IO)
        } else {
            Ok((spec_varint_value(b, bytes.subrange(pos + 1, end)) as i32, end))
        }
    }
}

/// How many bytes after the first an integer outside `-123 ..= 122` takes:
/// the fewest low bytes such that all higher bytes repeat the sign.
pub open spec fn spec_varint_width(v: int) -> int {
    if v >= 0 {
        if v < 0x100 {
            1
        } else if v < 0x1_0000 {
            2
        } else if v < 0x100_0000 {
            3
        } else {
            4
        }
    } else {
        if v >= -0x100 {
            1
        } else if v >= -0x1_0000 {
            2
        } else if v >= -0x100_0000 {
            3
        } else {
            4
        }
    }
}

/// Encoding: the bytes of the integer `v`.
pub open spec fn spec_varint(v: i32) -> Seq<u8> {
    if v == 0 {
        seq![0u8]
    } else if 1 <= v <= 122 {
        seq![(v + 5) as u8]
    } else if -123 <= v <= -1 {
        seq![(v - 5 + 256) as u8]
    } else if v > 0 {
        let k = spec_varint_width(v as int);
        seq![k as u8] + le_bytes(v as int, k)
    } else {
        let k = spec_varint_width(v as int);
        seq![(256 - k) as u8] + le_bytes(v as int + pow256(k), k)
    }
}

/// Appends the encoding of `v` to `dst` and returns how many bytes that took.
pub fn varint_encode(v: i32, dst: &mut Vec<u8>) -> (n: usize)
    ensures
        final(dst)@ == old(dst)@ + spec_varint(v),
        n == spec_varint(v).len(),
        1 <= n <= 5,
{
    let ghost before = dst@;
    if v == 0 {
        dst.push(0);
        assert(dst@ =~= before + spec_varint(v));
        1
    } else if 1 <= v && v <= 122 {
        dst.push((v + 5) as u8);
        assert(dst@ =~= before + spec_varint(v));
        1
    } else if -123 <= v && v <= -1 {
        dst.push((v - 5 + 256) as u8);
        assert(dst@ =~= before + spec_varint(v));
        1
    } else {
        let wide: i64 = v as i64;
        let k: usize = if wide >= 0 {
            if wide < 0x100 {
                1
            } else if wide < 0x1_0000 {
                2
            } else if wide < 0x100_0000 {
                3
            } else {
                4
            }
        } else {
            if wide >= -0x100 {
                1
            } else if wide >= -0x1_0000 {
                2
            } else if wide >= -0x100_0000 {
                3
            } else {
                4
            }
        };
        let modulus: i64 = if k == 1 {
            0x100
        } else if k == 2 {
            0x1_0000
        } else if k == 3 {
            0x100_0000
        } else {
            0x1_0000_0000
        };
        assert(modulus == pow256(k as int));
        let marker: u8 = if wide > 0 { k as u8 } else { (256 - k) as u8 };
        let n: i64 = if wide > 0 { wide } else { wide + modulus };
        dst.push(marker);
        let mut rest: i64 = n;
        let mut i: usize = 0;
        while i < k
            invariant
                0 <= i <= k <= 4,
                0 <= n < 0x1_0000_0000,
                rest == n as int / pow256(i as int),
                dst@ == before + seq![marker] + le_bytes(n as int, k as int).subrange(0, i as int),
            decreases k - i,
        {
            let ghost prev = dst@;
            dst.push((rest % 256) as u8);
            assert(dst@ =~= before + seq![marker] + le_bytes(n as int, k as int).subrange(
                0,
                i as int + 1,
            )) by {
                assert(le_bytes(n as int, k as int)[i as int] == ((n as int / pow256(i as int))
                    % 256) as u8);
                assert(le_bytes(n as int, k as int).subrange(0, i as int + 1) =~= le_bytes(
                    n as int,
                    k as int,
                ).subrange(0, i as int).push(le_bytes(n as int, k as int)[i as int]));
            }
            assert(rest as int / 256 == n as int / pow256(i as int + 1)) by {
                lemma_div_steps(n as int);
            }
            rest = rest / 256;
            i = i + 1;
        }
        assert(dst@ =~= before + spec_varint(v)) by {
            assert(le_bytes(n as int, k as int).subrange(0, k as int) =~= le_bytes(
                n as int,
                k as int,
            ));
        }
        k + 1
    }
}

/// Dividing by 256 repeatedly is dividing by the powers of 256.
proof fn lemma_div_steps(n: int)
    requires
        0 <= n,
    ensures
        n / pow256(0) == n,
        (n / pow256(0)) / 256 == n / pow256(1),
        (n / pow256(1)) / 256 == n / pow256(2),
        (n / pow256(2)) / 256 == n / pow256(3),
        (n / pow256(3)) / 256 == n / pow256(4),
{
}

/// Reads the integer that starts at `pos` of `src`. Returns it with the
/// position after it.
pub fn varint_decode(src: &[u8], pos: usize) -> (r: TResult<(i32, usize)>)
    ensures
        match spec_read_int(src@, pos as int) {
            Ok((v, end)) => r matches Ok((x, y)) && x == v && y == end && pos < end <= src@.len(),
            Err(e) => r matches Err(g) && g == e,
        },
{
    if pos >= src.len() {
        return Err(ThurgoodError::IO);
    }
    let b: u8 = src[pos];
    let extra: usize = if 1 <= b && b <= 4 {
        b as usize
    } else if b >= 252 {
        256 - b as usize
    } else {
        0
    };
    if extra > src.len() - pos - 1 {
        return Err(ThurgoodError::IO);
    }
    let end: usize = pos + 1 + extra;
    let ghost tail = src@.subrange(pos as int + 1, end as int);
    let mut raw: i64 = 0;
    let mut scale: i64 = 1;
    let mut i: usize = 0;
    while i < extra
        invariant
            0 <= i <= extra <= 4,
            end == pos + 1 + extra,
            end <= src@.len(),
            tail == src@.subrange(pos as int + 1, end as int),
            scale == pow256(i as int),
            raw == le_value(tail.subrange(0, i as int)),
            0 <= raw < scale,
        decreases extra - i,
    {
        let byte: u8 = src[pos + 1 + i];
        assert(byte == tail[i as int]);
        assert(tail.subrange(0, i as int + 1) =~= tail.subrange(0, i as int).push(byte));
        assert(tail.subrange(0, i as int + 1).len() == i + 1);
        assert(forall|j: int|
            0 <= j < i ==> tail.subrange(0, i as int + 1)[j] == tail.subrange(0, i as int)[j]);
        raw = raw + byte as i64 * scale;
        scale = scale * 256;
        i = i + 1;
    }
    assert(tail.subrange(0, extra as int) =~= tail);
    let value: i64 = if b == 0 {
        0
    } else if 1 <= b && b <= 4 || b == 252 {
        if raw >= 0x8000_0000 {
            raw - 0x1_0000_0000
        } else {
            raw
        }
    } else if 5 <= b && b <= 127 {
        b as i64 - 5
    } else if 128 <= b && b <= 251 {
        b as i64 - 256 + 5
    } else {
        raw - scale
    };
    assert(value == spec_varint_value(b, tail));
    Ok((value as i32, end))
}

/// Decoding inverts encoding: for every 32-bit integer `v`, reading the
/// bytes of `v` gives `v` back and stops right after them, whatever follows.
pub proof fn lemma_varint_roundtrip(v: i32, rest: Seq<u8>)
    ensures
        spec_read_int(spec_varint(v) + rest, 0) == Ok::<(i32, int), ThurgoodError>(
            (v, spec_varint(v).len() as int),
        ),
{
    let enc = spec_varint(v);
    let all = enc + rest;
    let b = all[0];
    assert(b == enc[0]);
    let extra = spec_varint_extra(b);
    assert(enc.len() == 1 + extra);
    assert(all.subrange(1, 1 + extra) =~= enc.subrange(1, 1 + extra));
    let tail = enc.subrange(1, 1 + extra);
    if v == 0 || (-123 <= v && v <= 122) {
    } else {
        let k = spec_varint_width(v as int);
        let n = if v > 0 { v as int } else { v as int + pow256(k) };
        assert(tail =~= le_bytes(n, k));
        lemma_le_value_of_le_bytes(n, k);
    }
}

/// The low `k` bytes of a number below `256^k` denote that number.
pub proof fn lemma_le_value_of_le_bytes(n: int, k: int)
    requires
        1 <= k <= 4,
        0 <= n < pow256(k),
    ensures
        le_value(le_bytes(n, k)) == n,
        le_bytes(n, k).len() == k,
{
    let s = le_bytes(n, k);
    assert(s[0] == ((n / pow256(0)) % 256) as u8);
    if k > 1 {
        assert(s[1] == ((n / pow256(1)) % 256) as u8);
    }
    if k > 2 {
        assert(s[2] == ((n / pow256(2)) % 256) as u8);
    }
    if k > 3 {
        assert(s[3] == ((n / pow256(3)) % 256) as u8);
    }
}

} // verus!
