//! Reading back the objects that hold no values.

use vstd::prelude::*;
use crate::bigint::{is_normal, lemma_magnitude_of_padded, spec_padded};
use crate::consts::{T_TRUE, T_INSTANCE, T_BIGNUM, T_FLOAT, T_USER_DEFINED};
use crate::emit::{
    spec_flag_byte, spec_len32, spec_utf8, spec_write_bignum, spec_write_et, spec_write_float,
    spec_write_len_bytes, spec_write_symbol, WriteState,
};
use crate::error::ThurgoodError;
use crate::float::{lemma_float_no_nul, lemma_until_nul_all, spec_is_float};
use crate::framing::{
    fits32, lemma_count_fits, lemma_read_int_at, lemma_read_len_bytes_at, lemma_read_symbol_at,
    lemma_stands_byte, lemma_stands_split, stands,
};
use crate::likeness::{continues, tied};
use crate::node::Node;
use crate::ordered::{lemma_insert_fresh, spec_insert};
use crate::tables::lemma_symbol_tables;
use crate::value::Value;
use crate::varint::spec_varint;
use crate::wire::{
    spec_is_utf8, spec_read_bignum, spec_read_byte, spec_read_entry, spec_read_float,
    spec_read_instance_regex, spec_read_instance_string, spec_read_len_bytes, spec_read_pairs,
    spec_read_tail, spec_read_text, spec_read_user_data, spec_text, ReadState,
};

verus! {

/// The state of a reader after it has read a symbol that the writer wrote:
/// the symbol table is that of the writer.
pub open spec fn spec_with_symbols(sr: ReadState, sw: WriteState) -> ReadState {
    ReadState { heap: sr.heap, symbols: sw.symbols, objects: sr.objects }
}

/// A reader that has followed the writer still does after both have taken
/// a symbol.
pub proof fn lemma_tied_symbol(
    h: Seq<Node>,
    sw: WriteState,
    sr: ReadState,
    open: Set<int>,
    sym: Seq<u8>,
)
    requires
        tied(h, sw, sr, open),
    ensures
        tied(h, spec_write_symbol(sym, sw).1, spec_with_symbols(sr, spec_write_symbol(sym, sw).1), open),
        continues(sr, spec_with_symbols(sr, spec_write_symbol(sym, sw).1)),
        spec_write_symbol(sym, sw).1.objects == sw.objects,
{
    reveal(tied);
    lemma_symbol_tables(h, sym, sw);
    let sw2 = spec_write_symbol(sym, sw).1;
    let sr2 = spec_with_symbols(sr, sw2);
    assert forall|k: int| 0 <= k < sr2.objects.len() implies 0 <= #[trigger] sr2.objects[k]
        < sr2.heap.len() && !(sr2.heap[sr2.objects[k]] is Extended) by {
        assert(sr2.objects[k] == sr.objects[k]);
    }
}

/// The field tail that marks a string as UTF-8 is read back as the one
/// field that it is.
pub proof fn lemma_et_back(b: Seq<u8>, pos: int, sw: WriteState, sr: ReadState, lax: bool)
    requires
        fits32(sw.symbols.len() as int),
        sr.symbols == sw.symbols,
        stands(b, pos, spec_write_et(sw).0),
    ensures
        spec_read_tail(b, pos, sr, lax) == Ok::<
            (Seq<(Seq<u8>, Value)>, int, ReadState),
            ThurgoodError,
        >(
            (
                seq![(seq![69u8], Value::True)],
                pos + spec_write_et(sw).0.len(),
                spec_with_symbols(sr, spec_write_et(sw).1),
            ),
        ),
        spec_is_utf8(seq![(seq![69u8], Value::True)]),
        spec_write_et(sw).1 == spec_write_symbol(seq![69u8], sw).1,
{
    let e = spec_write_symbol(seq![69u8], sw);
    let one = seq![6u8];
    assert(spec_write_et(sw).0 =~= one + (e.0 + seq![T_TRUE]));
    lemma_stands_split(b, pos, one, e.0 + seq![T_TRUE]);
    lemma_stands_split(b, pos + 1, e.0, seq![T_TRUE]);
    assert(spec_varint(1i32) =~= one);
    lemma_read_int_at(b, pos, 1i32);
    lemma_read_symbol_at(b, pos + 1, seq![69u8], sw, sr, lax);
    let q1 = pos + 1 + e.0.len();
    let sr1 = spec_with_symbols(sr, e.1);
    lemma_stands_byte(b, q1, seq![T_TRUE], 0);
    assert(spec_read_entry(b, q1, sr1, lax) == Ok::<(Value, int, ReadState), ThurgoodError>(
        (Value::True, q1 + 1, sr1),
    ));
    let empty = Seq::<(Seq<u8>, Value)>::empty();
    lemma_insert_fresh(empty, seq![69u8], Value::True);
    let got = spec_insert(empty, seq![69u8], Value::True);
    assert(got =~= seq![(seq![69u8], Value::True)]);
    assert(spec_read_pairs(b, q1 + 1, sr1, lax, 0, got) == Ok::<
        (Seq<(Seq<u8>, Value)>, int, ReadState),
        ThurgoodError,
    >((got, q1 + 1, sr1)));
    assert(spec_read_pairs(b, pos + 1, sr, lax, 1, empty) == Ok::<
        (Seq<(Seq<u8>, Value)>, int, ReadState),
        ThurgoodError,
    >((got, q1 + 1, sr1)));
    assert(seq![(seq![69u8], Value::True)][0] == (seq![69u8], Value::True));
}

/// A float is read back from where it was written.
pub proof fn lemma_float_back(b: Seq<u8>, pos: int, text: Seq<u8>)
    requires
        spec_is_float(text),
        fits32(text.len() as int),
        stands(b, pos, spec_write_float(text)),
    ensures
        b[pos] == T_FLOAT,
        spec_read_float(b, pos + 1) == Ok::<(Node, int), ThurgoodError>(
            (Node::Float(text), pos + spec_write_float(text).len()),
        ),
{
    reveal(spec_read_float);
    lemma_stands_split(b, pos, seq![T_FLOAT], spec_write_len_bytes(text));
    lemma_stands_byte(b, pos, seq![T_FLOAT], 0);
    lemma_read_len_bytes_at(b, pos + 1, text);
    lemma_float_no_nul(text);
    lemma_until_nul_all(text);
}

/// A big integer is read back from where it was written.
pub proof fn lemma_bignum_back(b: Seq<u8>, pos: int, negative: bool, magnitude: Seq<u8>)
    requires
        is_normal(magnitude),
        negative ==> magnitude != seq![0u8],
        fits32(spec_padded(magnitude).len() as int / 2),
        stands(b, pos, spec_write_bignum(negative, magnitude)),
    ensures
        b[pos] == T_BIGNUM,
        spec_read_bignum(b, pos + 1) == Ok::<(Node, int), ThurgoodError>(
            (Node::BigInt { negative, magnitude }, pos + spec_write_bignum(negative, magnitude).len()),
        ),
{
    let sign = if negative { 45u8 } else { 43u8 };
    let padded = spec_padded(magnitude);
    let words = padded.len() as int / 2;
    let count = spec_varint(spec_len32(words));
    let head = seq![T_BIGNUM, sign];
    assert(spec_write_bignum(negative, magnitude) =~= head + (count + padded));
    lemma_stands_split(b, pos, head, count + padded);
    lemma_stands_split(b, pos + 2, count, padded);
    lemma_stands_byte(b, pos, head, 0);
    lemma_stands_byte(b, pos, head, 1);
    lemma_read_int_at(b, pos + 2, spec_len32(words));
    lemma_count_fits(words);
    lemma_magnitude_of_padded(magnitude);
    assert(padded.len() == 2 * words);
}

/// Text with its length is read back from where it was written.
pub proof fn lemma_text_back(b: Seq<u8>, pos: int, text: Seq<char>)
    requires
        fits32(spec_utf8(text).len() as int),
        stands(b, pos, spec_write_len_bytes(spec_utf8(text))),
    ensures
        spec_read_text(b, pos) == Ok::<(Seq<char>, int), ThurgoodError>(
            (text, pos + spec_write_len_bytes(spec_utf8(text)).len()),
        ),
        spec_text(spec_utf8(text)) == Some(text),
{
    lemma_read_len_bytes_at(b, pos, spec_utf8(text));
    lemma_text_of_utf8(text);
}

/// The UTF-8 bytes of a text spell the text.
pub proof fn lemma_text_of_utf8(text: Seq<char>)
    ensures
        spec_text(spec_utf8(text)) == Some(text),
{
    reveal(spec_text);
    reveal(spec_utf8);
    vstd::utf8::encode_utf8_valid_utf8(text);
    vstd::utf8::encode_utf8_decode_utf8(text);
}

/// The body of a UTF-8 string is read back from where it was written.
#[verifier::rlimit(40)]
pub proof fn lemma_str_body_back(
    b: Seq<u8>,
    pos: int,
    text: Seq<char>,
    sw: WriteState,
    sr: ReadState,
    lax: bool,
)
    requires
        fits32(spec_utf8(text).len() as int),
        fits32(sw.symbols.len() as int),
        sr.symbols == sw.symbols,
        stands(b, pos, spec_write_len_bytes(spec_utf8(text))),
        stands(b, pos + spec_write_len_bytes(spec_utf8(text)).len(), spec_write_et(sw).0),
    ensures
        spec_read_instance_string(b, pos, sr, lax) == Ok::<(Node, int, ReadState), ThurgoodError>(
            (
                Node::Str(text),
                pos + spec_write_len_bytes(spec_utf8(text)).len() + spec_write_et(sw).0.len(),
                spec_with_symbols(sr, spec_write_et(sw).1),
            ),
        ),
{
    let data = spec_utf8(text);
    let body = spec_write_len_bytes(data);
    let tail = spec_write_et(sw).0;
    lemma_text_back(b, pos, text);
    lemma_read_len_bytes_at(b, pos, data);
    let q1 = pos + body.len();
    assert(spec_read_len_bytes(b, pos) == Ok::<(Seq<u8>, int), ThurgoodError>((data, q1)));
    lemma_et_back(b, q1, sw, sr, lax);
}

/// The body of a UTF-8 regex is read back from where it was written.
#[verifier::rlimit(40)]
pub proof fn lemma_regex_body_back(
    b: Seq<u8>,
    pos: int,
    text: Seq<char>,
    flag: u8,
    sw: WriteState,
    sr: ReadState,
    lax: bool,
)
    requires
        fits32(spec_utf8(text).len() as int),
        fits32(sw.symbols.len() as int),
        sr.symbols == sw.symbols,
        stands(b, pos, spec_write_len_bytes(spec_utf8(text))),
        stands(b, pos + spec_write_len_bytes(spec_utf8(text)).len(), seq![flag]),
        stands(b, pos + spec_write_len_bytes(spec_utf8(text)).len() + 1, spec_write_et(sw).0),
    ensures
        spec_read_instance_regex(b, pos, sr, lax) == Ok::<(Node, int, ReadState), ThurgoodError>(
            (
                Node::Regex { content: text, flags: flag as u32 },
                pos + spec_write_len_bytes(spec_utf8(text)).len() + 1 + spec_write_et(
                    sw,
                ).0.len(),
                spec_with_symbols(sr, spec_write_et(sw).1),
            ),
        ),
{
    let data = spec_utf8(text);
    let body = spec_write_len_bytes(data);
    let fl = seq![flag];
    let tail = spec_write_et(sw).0;
    lemma_stands_byte(b, pos + body.len(), fl, 0);
    lemma_text_back(b, pos, text);
    lemma_read_len_bytes_at(b, pos, data);
    let q1 = pos + body.len();
    assert(spec_read_len_bytes(b, pos) == Ok::<(Seq<u8>, int), ThurgoodError>((data, q1)));
    assert(spec_read_byte(b, q1) == Ok::<(u8, int), ThurgoodError>((flag, q1 + 1)));
    lemma_et_back(b, q1 + 1, sw, sr, lax);
}

/// The flags of a regex that fit one byte are that byte.
pub proof fn lemma_flag_byte(flags: u32)
    requires
        flags < 256,
    ensures
        spec_flag_byte(flags) as u32 == flags,
{
    reveal(spec_flag_byte);
}

/// Where the two tags of an instance stand, they are read.
pub proof fn lemma_instance_head(b: Seq<u8>, pos: int, tag: u8)
    requires
        stands(b, pos, seq![T_INSTANCE, tag]),
    ensures
        b[pos] == T_INSTANCE,
        spec_read_byte(b, pos + 1) == Ok::<(u8, int), ThurgoodError>((tag, pos + 2)),
{
    let head = seq![T_INSTANCE, tag];
    lemma_stands_byte(b, pos, head, 0);
    lemma_stands_byte(b, pos, head, 1);
}

/// User data is read back from where it was written.
pub proof fn lemma_user_data_back(
    b: Seq<u8>,
    pos: int,
    name: Seq<u8>,
    data: Seq<u8>,
    sw: WriteState,
    sr: ReadState,
    lax: bool,
)
    requires
        fits32(name.len() as int),
        fits32(data.len() as int),
        fits32(sw.symbols.len() as int),
        sr.symbols == sw.symbols,
        stands(
            b,
            pos,
            seq![T_USER_DEFINED] + spec_write_symbol(name, sw).0 + spec_write_len_bytes(data),
        ),
    ensures
        b[pos] == T_USER_DEFINED,
        spec_read_user_data(b, pos + 1, sr, lax) == Ok::<(Node, int, ReadState), ThurgoodError>(
            (
                Node::UserData { name, data },
                pos + (seq![T_USER_DEFINED] + spec_write_symbol(name, sw).0
                    + spec_write_len_bytes(data)).len(),
                spec_with_symbols(sr, spec_write_symbol(name, sw).1),
            ),
        ),
{
    let head = seq![T_USER_DEFINED];
    let n = spec_write_symbol(name, sw).0;
    let body = spec_write_len_bytes(data);
    assert(head + n + body =~= head + (n + body));
    lemma_stands_split(b, pos, head, n + body);
    lemma_stands_split(b, pos + 1, n, body);
    lemma_stands_byte(b, pos, head, 0);
    lemma_read_symbol_at(b, pos + 1, name, sw, sr, lax);
    lemma_read_len_bytes_at(b, pos + 1 + n.len(), data);
}

} // verus!
