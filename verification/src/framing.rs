//! Reading back what was written: bytes, integers, lengths and symbols.

use vstd::prelude::*;
use crate::consts::{T_SYMBOL, T_SYMBOL_REF};
use crate::emit::{spec_len32, spec_write_len_bytes, spec_write_symbol, WriteState};
use crate::error::ThurgoodError;
use crate::ordered::{lemma_find, spec_find};
use crate::value::Value;
use crate::varint::{lemma_varint_roundtrip, spec_read_int, spec_varint, spec_varint_extra};
use crate::wire::{
    spec_count, spec_read_entry, spec_read_len_bytes, spec_read_symbol_ref, ReadState,
};

verus! {

/// The bytes `part` stand in `b` from the position `pos` on.
pub open spec fn stands(b: Seq<u8>, pos: int, part: Seq<u8>) -> bool {
    &&& 0 <= pos
    &&& pos + part.len() <= b.len()
    &&& b.subrange(pos, pos + part.len()) == part
}

/// A number that a length, a count or an index of the format can be.
pub open spec fn fits32(n: int) -> bool {
    0 <= n <= 0x7fff_ffff
}

/// Where two parts stand one after the other, each stands in its place.
pub proof fn lemma_stands_split(b: Seq<u8>, pos: int, x: Seq<u8>, y: Seq<u8>)
    requires
        stands(b, pos, x + y),
    ensures
        stands(b, pos, x),
        stands(b, pos + x.len(), y),
{
    let whole = x + y;
    assert(b.subrange(pos, pos + x.len()) =~= whole.subrange(0, x.len() as int));
    assert(whole.subrange(0, x.len() as int) =~= x);
    assert(b.subrange(pos + x.len(), pos + x.len() + y.len()) =~= whole.subrange(
        x.len() as int,
        whole.len() as int,
    ));
    assert(whole.subrange(x.len() as int, whole.len() as int) =~= y);
}

/// Where three parts stand one after the other, each stands in its place.
pub proof fn lemma_stands3(b: Seq<u8>, pos: int, x: Seq<u8>, y: Seq<u8>, z: Seq<u8>)
    requires
        stands(b, pos, x + y + z),
    ensures
        stands(b, pos, x),
        stands(b, pos + x.len(), y),
        stands(b, pos + x.len() + y.len(), z),
        (x + y + z).len() == x.len() + y.len() + z.len(),
{
    lemma_stands_split(b, pos, x + y, z);
    lemma_stands_split(b, pos, x, y);
}

/// Where four parts stand one after the other, each stands in its place.
pub proof fn lemma_stands4(
    b: Seq<u8>,
    pos: int,
    x: Seq<u8>,
    y: Seq<u8>,
    z: Seq<u8>,
    u: Seq<u8>,
)
    requires
        stands(b, pos, x + y + z + u),
    ensures
        stands(b, pos, x),
        stands(b, pos + x.len(), y),
        stands(b, pos + x.len() + y.len(), z),
        stands(b, pos + x.len() + y.len() + z.len(), u),
        (x + y + z + u).len() == x.len() + y.len() + z.len() + u.len(),
{
    lemma_stands_split(b, pos, x + y + z, u);
    lemma_stands3(b, pos, x, y, z);
}

/// Where bytes stand, each of them stands in its place.
pub proof fn lemma_stands_byte(b: Seq<u8>, pos: int, part: Seq<u8>, i: int)
    requires
        stands(b, pos, part),
        0 <= i < part.len(),
    ensures
        b[pos + i] == part[i],
{
    assert(b.subrange(pos, pos + part.len())[i] == b[pos + i]);
}

/// An integer is read back from where its bytes stand.
pub proof fn lemma_read_int_at(b: Seq<u8>, pos: int, v: i32)
    requires
        stands(b, pos, spec_varint(v)),
    ensures
        spec_read_int(b, pos) == Ok::<(i32, int), ThurgoodError>(
            (v, pos + spec_varint(v).len()),
        ),
        1 <= spec_varint(v).len() <= 5,
{
    let enc = spec_varint(v);
    lemma_varint_roundtrip(v, Seq::empty());
    let all = enc + Seq::<u8>::empty();
    assert(all =~= enc);
    lemma_stands_byte(b, pos, enc, 0);
    let extra = spec_varint_extra(enc[0]);
    assert(enc.len() == 1 + extra);
    let tail = b.subrange(pos + 1, pos + 1 + extra);
    assert(tail =~= enc.subrange(1, 1 + extra)) by {
        assert forall|i: int| 0 <= i < extra implies #[trigger] tail[i] == enc.subrange(
            1,
            1 + extra,
        )[i] by {
            lemma_stands_byte(b, pos, enc, i + 1);
        }
    }
}

/// A count that fits the format is read back as it was written.
pub proof fn lemma_count_fits(n: int)
    requires
        fits32(n),
    ensures
        spec_count(spec_len32(n)) == n,
        spec_len32(n) == n,
{
}

/// Bytes with their length are read back from where they stand.
pub proof fn lemma_read_len_bytes_at(b: Seq<u8>, pos: int, data: Seq<u8>)
    requires
        fits32(data.len() as int),
        stands(b, pos, spec_write_len_bytes(data)),
    ensures
        spec_read_len_bytes(b, pos) == Ok::<(Seq<u8>, int), ThurgoodError>(
            (data, pos + spec_write_len_bytes(data).len()),
        ),
{
    let head = spec_varint(spec_len32(data.len() as int));
    lemma_stands_split(b, pos, head, data);
    lemma_read_int_at(b, pos, spec_len32(data.len() as int));
    lemma_count_fits(data.len() as int);
}

/// A symbol is read back from where it was written, with the same effect
/// on the symbol table.
pub proof fn lemma_read_symbol_at(
    b: Seq<u8>,
    pos: int,
    sym: Seq<u8>,
    sw: WriteState,
    sr: ReadState,
    lax: bool,
)
    requires
        fits32(sym.len() as int),
        fits32(sw.symbols.len() as int),
        sr.symbols == sw.symbols,
        stands(b, pos, spec_write_symbol(sym, sw).0),
    ensures
        spec_read_entry(b, pos, sr, lax) == Ok::<(Value, int, ReadState), ThurgoodError>(
            (
                Value::Symbol(sym),
                pos + spec_write_symbol(sym, sw).0.len(),
                ReadState {
                    heap: sr.heap,
                    symbols: spec_write_symbol(sym, sw).1.symbols,
                    objects: sr.objects,
                },
            ),
        ),
        spec_write_symbol(sym, sw).0.len() > 0,
        spec_write_symbol(sym, sw).1.objects == sw.objects,
{
    lemma_find(sw.symbols, sym);
    match spec_find(sw.symbols, sym) {
        Some(i) => {
            let tail = spec_varint(spec_len32(i));
            lemma_stands_split(b, pos, seq![T_SYMBOL_REF], tail);
            lemma_stands_byte(b, pos, seq![T_SYMBOL_REF], 0);
            lemma_read_int_at(b, pos + 1, spec_len32(i));
            lemma_count_fits(i);
            assert(spec_read_symbol_ref(b, pos + 1, sr) == Ok::<
                (Value, int, ReadState),
                ThurgoodError,
            >((Value::Symbol(sym), pos + 1 + tail.len(), sr)));
        },
        None => {
            let tail = spec_write_len_bytes(sym);
            lemma_stands_split(b, pos, seq![T_SYMBOL], tail);
            lemma_stands_byte(b, pos, seq![T_SYMBOL], 0);
            lemma_read_len_bytes_at(b, pos + 1, sym);
        },
    }
}

} // verus!
