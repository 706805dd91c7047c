//! The wire format, as the writer produces it.
//!
//! The functions here are the mathematical definition of encoding. They
//! thread the state of an encoder through, the symbol table and the object
//! table, and each returns the bytes it produces with the new state.
//!
//! An object is written in full where it is first met, and takes the next
//! place in the object table before its contents are written; where it is
//! met again, a reference to that place is written. So the contents of an
//! object may lead back to the object. Encoding ends because every object
//! written in full is one the table did not hold, and an extended object,
//! which takes no place in the table, wraps an object of a lower place in
//! the graph.

use vstd::prelude::*;
use vstd::utf8::encode_utf8;
use crate::bigint::spec_padded;
use crate::consts::{
    T_TRUE, T_FALSE, T_NIL, T_INT, T_SYMBOL, T_SYMBOL_REF, T_OBJECT_REF, T_INSTANCE, T_ARRAY,
    T_BIGNUM, T_CLASS, T_MODULE, T_CLASS_MODULE, T_DATA, T_FLOAT, T_HASH, T_HASH_DEFAULT,
    T_OBJECT, T_REGEX, T_STRING, T_STRUCT, T_USER_CLASS, T_USER_DEFINED, T_USER_MARSHAL,
    T_EXTENDED,
};
use crate::node::Node;
use crate::ordered::spec_find;
use crate::value::Value;
use crate::varint::spec_varint;

verus! {

/// The state of an encoder.
pub struct WriteState {
    /// The symbols written so far, in the order of their first occurrence.
    pub symbols: Seq<Seq<u8>>,
    /// The object table: the places in the graph of the objects written so
    /// far, in the order of their first occurrence.
    pub objects: Seq<int>,
}

/// What a step of the encoder gives: the bytes, and the state after it.
pub type Emitted = (Seq<u8>, WriteState);

/// The state in which encoding starts.
pub open spec fn spec_fresh() -> WriteState {
    WriteState { symbols: Seq::empty(), objects: Seq::empty() }
}

/// A length, a count or an index as the writer emits it: cut to 32 bits.
pub open spec fn spec_len32(n: int) -> i32 {
    n as i32
}

/// The UTF-8 bytes of a text.
#[verifier::opaque]
pub open spec fn spec_utf8(text: Seq<char>) -> Seq<u8> {
    encode_utf8(text)
}

/// The byte that the format has for the flags of a regex: their low eight
/// bits.
#[verifier::opaque]
pub open spec fn spec_flag_byte(flags: u32) -> u8 {
    (flags % 256) as u8
}

/// A length and the bytes.
pub open spec fn spec_write_len_bytes(data: Seq<u8>) -> Seq<u8> {
    spec_varint(spec_len32(data.len() as int)) + data
}

/// A symbol: in full where it is first written, and as a reference to its
/// place in the symbol table after that.
pub open spec fn spec_write_symbol(sym: Seq<u8>, st: WriteState) -> Emitted {
    match spec_find(st.symbols, sym) {
        Some(i) => (seq![T_SYMBOL_REF] + spec_varint(spec_len32(i)), st),
        None => (
            seq![T_SYMBOL] + spec_write_len_bytes(sym),
            WriteState { symbols: st.symbols.push(sym), objects: st.objects },
        ),
    }
}

/// The field tail that marks a string as UTF-8: one field, the symbol `E`
/// with the value true.
pub open spec fn spec_write_et(st: WriteState) -> Emitted {
    let e = spec_write_symbol(seq![69u8], st);
    (seq![6u8] + e.0 + seq![T_TRUE], e.1)
}

/// A float: its numeral.
pub open spec fn spec_write_float(text: Seq<u8>) -> Seq<u8> {
    seq![T_FLOAT] + spec_write_len_bytes(text)
}

/// A big integer: the sign, the number of 16-bit words of the magnitude,
/// and the bytes of the magnitude, with a zero byte after them where their
/// number is odd.
pub open spec fn spec_write_bignum(negative: bool, magnitude: Seq<u8>) -> Seq<u8> {
    seq![T_BIGNUM, if negative { 45u8 } else { 43u8 }] + spec_varint(
        spec_len32(spec_padded(magnitude).len() as int / 2),
    ) + spec_padded(magnitude)
}

/// How many objects of the graph the object table can still take.
pub open spec fn spec_unwritten(h: Seq<Node>, st: WriteState) -> nat {
    if st.objects.len() <= h.len() {
        (h.len() - st.objects.len()) as nat
    } else {
        0
    }
}

/// The level of a value in the order that shows that encoding ends: above
/// the level of the object that an extended object wraps.
pub open spec fn spec_level(h: Seq<Node>, v: Value) -> int {
    match v {
        Value::Ref(id) => if 0 <= id < h.len() {
            id + 1
        } else {
            0
        },
        _ => 0,
    }
}

/// One entry.
pub open spec fn spec_write_entry(h: Seq<Node>, v: Value, st: WriteState) -> Emitted
    decreases spec_unwritten(h, st), spec_level(h, v), 1int,
{
    match v {
        Value::Nil => (seq![T_NIL], st),
        Value::True => (seq![T_TRUE], st),
        Value::False => (seq![T_FALSE], st),
        Value::Int(i) => (seq![T_INT] + spec_varint(i), st),
        Value::Symbol(s) => spec_write_symbol(s, st),
        Value::Ref(id) => if 0 <= id < h.len() {
            spec_write_ref(h, id, st)
        } else {
            (Seq::empty(), st)
        },
    }
}

/// The object at place `id`. An extended object is written where it is met,
/// every time. Any other object is written in full the first time, and as
/// a reference to its place in the object table after that.
pub open spec fn spec_write_ref(h: Seq<Node>, id: int, st: WriteState) -> Emitted
    recommends
        0 <= id < h.len(),
    decreases spec_unwritten(h, st), id + 1, 0int,
{
    if !(0 <= id < h.len()) {
        (Seq::empty(), st)
    } else {
        match h[id] {
            Node::Extended { module, object } => {
                let m = spec_write_symbol(module, st);
                if spec_level(h, object) <= id {
                    let o = spec_write_entry(h, object, m.1);
                    (seq![T_EXTENDED] + m.0 + o.0, o.1)
                } else {
                    (seq![T_EXTENDED] + m.0, m.1)
                }
            },
            _ => match spec_find(st.objects, id) {
                Some(k) => (seq![T_OBJECT_REF] + spec_varint(spec_len32(k)), st),
                None => if st.objects.len() < h.len() {
                    spec_write_node(
                        h,
                        h[id],
                        WriteState { symbols: st.symbols, objects: st.objects.push(id) },
                    )
                } else {
                    (Seq::empty(), st)
                },
            },
        }
    }
}

/// The entries from the `i`-th on of an array.
pub open spec fn spec_write_items(h: Seq<Node>, items: Seq<Value>, i: int, st: WriteState) -> Emitted
    decreases spec_unwritten(h, st), h.len() + 1, items.len() - i,
{
    if !(0 <= i < items.len()) {
        (Seq::empty(), st)
    } else {
        let a = spec_write_entry(h, items[i], st);
        if a.1.objects.len() < st.objects.len() {
            a
        } else {
            let b = spec_write_items(h, items, i + 1, a.1);
            (a.0 + b.0, b.1)
        }
    }
}

/// The fields from the `i`-th on: for each, its symbol and its value.
pub open spec fn spec_write_fields(
    h: Seq<Node>,
    fields: Seq<(Seq<u8>, Value)>,
    i: int,
    st: WriteState,
) -> Emitted
    decreases spec_unwritten(h, st), h.len() + 1, fields.len() - i,
{
    if !(0 <= i < fields.len()) {
        (Seq::empty(), st)
    } else {
        let k = spec_write_symbol(fields[i].0, st);
        let v = spec_write_entry(h, fields[i].1, k.1);
        if v.1.objects.len() < st.objects.len() {
            (k.0 + v.0, v.1)
        } else {
            let b = spec_write_fields(h, fields, i + 1, v.1);
            (k.0 + v.0 + b.0, b.1)
        }
    }
}

/// The entries from the `i`-th on of a hash: for each, its key and its
/// value.
pub open spec fn spec_write_entries(
    h: Seq<Node>,
    entries: Seq<(Value, Value)>,
    i: int,
    st: WriteState,
) -> Emitted
    decreases spec_unwritten(h, st), h.len() + 1, entries.len() - i,
{
    if !(0 <= i < entries.len()) {
        (Seq::empty(), st)
    } else {
        let k = spec_write_entry(h, entries[i].0, st);
        if k.1.objects.len() < st.objects.len() {
            k
        } else {
            let v = spec_write_entry(h, entries[i].1, k.1);
            if v.1.objects.len() < st.objects.len() {
                (k.0 + v.0, v.1)
            } else {
                let b = spec_write_entries(h, entries, i + 1, v.1);
                (k.0 + v.0 + b.0, b.1)
            }
        }
    }
}

/// A field tail: the number of fields, and the fields.
pub open spec fn spec_write_pairs(
    h: Seq<Node>,
    fields: Seq<(Seq<u8>, Value)>,
    st: WriteState,
) -> Emitted
    decreases spec_unwritten(h, st), h.len() + 2, 0int,
{
    let b = spec_write_fields(h, fields, 0, st);
    (spec_varint(spec_len32(fields.len() as int)) + b.0, b.1)
}

/// The body of an object or a struct: the name of the class and the field
/// tail.
pub open spec fn spec_write_object(
    h: Seq<Node>,
    name: Seq<u8>,
    fields: Seq<(Seq<u8>, Value)>,
    st: WriteState,
) -> Emitted
    decreases spec_unwritten(h, st), h.len() + 3, 0int,
{
    let n = spec_write_symbol(name, st);
    let b = spec_write_pairs(h, fields, n.1);
    (n.0 + b.0, b.1)
}

/// An envelope: the tag, the name, and one entry.
pub open spec fn spec_write_typed_data(
    h: Seq<Node>,
    name: Seq<u8>,
    data: Value,
    tag: u8,
    st: WriteState,
) -> Emitted
    decreases spec_unwritten(h, st), h.len() + 3, 0int,
{
    let n = spec_write_symbol(name, st);
    let d = spec_write_entry(h, data, n.1);
    (seq![tag] + n.0 + d.0, d.1)
}

/// A hash: the tag, which tells whether a default value follows, the
/// number of entries, the entries, and the default value if there is one.
pub open spec fn spec_write_hash(
    h: Seq<Node>,
    entries: Seq<(Value, Value)>,
    default: Option<Value>,
    st: WriteState,
) -> Emitted
    decreases spec_unwritten(h, st), h.len() + 3, 0int,
{
    let count = spec_varint(spec_len32(entries.len() as int));
    let b = spec_write_entries(h, entries, 0, st);
    match default {
        None => (seq![T_HASH] + count + b.0, b.1),
        Some(d) => if b.1.objects.len() < st.objects.len() {
            (seq![T_HASH_DEFAULT] + count + b.0, b.1)
        } else {
            let e = spec_write_entry(h, d, b.1);
            (seq![T_HASH_DEFAULT] + count + b.0 + e.0, e.1)
        },
    }
}

/// An object in full: the tag of its kind and its contents.
pub open spec fn spec_write_node(h: Seq<Node>, node: Node, st: WriteState) -> Emitted
    decreases spec_unwritten(h, st), h.len() + 4, 0int,
{
    match node {
        Node::Float(text) => (spec_write_float(text), st),
        Node::BigInt { negative, magnitude } => (spec_write_bignum(negative, magnitude), st),
        Node::Array(items) => {
            let b = spec_write_items(h, items, 0, st);
            (seq![T_ARRAY] + spec_varint(spec_len32(items.len() as int)) + b.0, b.1)
        },
        Node::Str(text) => {
            let e = spec_write_et(st);
            (seq![T_INSTANCE, T_STRING] + spec_write_len_bytes(spec_utf8(text)) + e.0, e.1)
        },
        Node::StrI { content, metadata } => {
            let b = spec_write_pairs(h, metadata, st);
            (seq![T_INSTANCE, T_STRING] + spec_write_len_bytes(content) + b.0, b.1)
        },
        Node::Regex { content, flags } => {
            let e = spec_write_et(st);
            (
                seq![T_INSTANCE, T_REGEX] + spec_write_len_bytes(spec_utf8(content)) + seq![spec_flag_byte(flags)] + e.0,
                e.1,
            )
        },
        Node::RegexI { content, flags, metadata } => {
            let b = spec_write_pairs(h, metadata, st);
            (
                seq![T_INSTANCE, T_REGEX] + spec_write_len_bytes(content) + seq![spec_flag_byte(flags)] + b.0,
                b.1,
            )
        },
        Node::Hash { entries, default } => spec_write_hash(h, entries, default, st),
        Node::Struct { name, fields } => {
            let b = spec_write_object(h, name, fields, st);
            (seq![T_STRUCT] + b.0, b.1)
        },
        Node::Object { name, fields } => {
            let b = spec_write_object(h, name, fields, st);
            (seq![T_OBJECT] + b.0, b.1)
        },
        Node::ClassRef(name) => (seq![T_CLASS] + spec_write_len_bytes(spec_utf8(name)), st),
        Node::ModuleRef(name) => (seq![T_MODULE] + spec_write_len_bytes(spec_utf8(name)), st),
        Node::ClassModuleRef(name) => (
            seq![T_CLASS_MODULE] + spec_write_len_bytes(spec_utf8(name)),
            st,
        ),
        Node::Data { name, data } => spec_write_typed_data(h, name, data, T_DATA, st),
        Node::UserClass { name, data } => spec_write_typed_data(h, name, data, T_USER_CLASS, st),
        Node::UserData { name, data } => {
            let n = spec_write_symbol(name, st);
            (seq![T_USER_DEFINED] + n.0 + spec_write_len_bytes(data), n.1)
        },
        Node::UserMarshal { name, data } => spec_write_typed_data(
            h,
            name,
            data,
            T_USER_MARSHAL,
            st,
        ),
        Node::Extended { module, object } => spec_write_typed_data(
            h,
            module,
            object,
            T_EXTENDED,
            st,
        ),
    }
}

/// Encoding a value of a graph: the header and one entry.
pub open spec fn spec_encode(h: Seq<Node>, v: Value) -> Seq<u8> {
    seq![4u8, 8u8] + spec_write_entry(h, v, spec_fresh()).0
}

} // verus!
