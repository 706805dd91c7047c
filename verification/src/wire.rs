//! The wire format, as the reader takes it.
//!
//! The functions here are the mathematical definition of decoding. They
//! work on a sequence of bytes and a position in it, and thread the state
//! of a decoder through: the graph built so far, the symbol table and the
//! object table. Each returns what it read with the position after it and
//! the new state, or the error that ends the decoding.

use vstd::prelude::*;
use vstd::utf8::{decode_utf8, valid_utf8};
use crate::bigint::spec_magnitude;
use crate::consts::{
    T_TRUE, T_FALSE, T_NIL, T_INT, T_SYMBOL, T_SYMBOL_REF, T_OBJECT_REF, T_INSTANCE, T_ARRAY,
    T_BIGNUM, T_CLASS, T_MODULE, T_CLASS_MODULE, T_DATA, T_FLOAT, T_HASH, T_HASH_DEFAULT,
    T_OBJECT, T_REGEX, T_STRING, T_STRUCT, T_USER_CLASS, T_USER_DEFINED, T_USER_MARSHAL,
    T_EXTENDED,
};
use crate::error::ThurgoodError;
use crate::float::{spec_is_float, spec_until_nul};
use crate::context::spec_type_of;
use crate::node::Node;
use crate::object::spec_extend;
use crate::ordered::spec_insert;
use crate::rb_type::RbType;
use crate::value::Value;
use crate::varint::spec_read_int;

verus! {

/// The state of a decoder.
pub struct ReadState {
    /// The objects made so far. An object whose payload is still being read
    /// is a placeholder.
    pub heap: Seq<Node>,
    /// The symbols read so far, in the order of their first occurrence.
    pub symbols: Seq<Seq<u8>>,
    /// The object table: the places in `heap` of the objects that a
    /// back-reference can name, in the order of their first occurrence.
    pub objects: Seq<int>,
}

/// What a step of the decoder gives: a value, the position after it and the
/// state after it; or an error.
pub type Parsed<T> = Result<(T, int, ReadState), ThurgoodError>;

/// The state in which decoding starts.
pub open spec fn spec_start() -> ReadState {
    ReadState { heap: Seq::empty(), symbols: Seq::empty(), objects: Seq::empty() }
}

/// What stands in the place of an object while its payload is read: the
/// float `1.0`.
pub open spec fn spec_placeholder() -> Node {
    Node::Float(seq![49u8, 46u8, 48u8])
}

/// A count or an index as the reader takes it: the 32-bit integer, read as
/// a machine-size unsigned number. A negative integer gives a number beyond
/// any length.
pub open spec fn spec_count(v: i32) -> usize {
    v as usize
}

/// The marker of a UTF-8 string among the fields of an instance: the symbol
/// `E` with the value true.
pub open spec fn spec_is_utf8(fields: Seq<(Seq<u8>, Value)>) -> bool {
    exists|i: int| 0 <= i < fields.len() && #[trigger] fields[i] == (seq![69u8], Value::True)
}

/// The text that bytes spell, if they are UTF-8.
#[verifier::opaque]
pub open spec fn spec_text(data: Seq<u8>) -> Option<Seq<char>> {
    if valid_utf8(data) {
        Some(decode_utf8(data))
    } else {
        None
    }
}

/// One byte.
pub open spec fn spec_read_byte(bytes: Seq<u8>, pos: int) -> Result<(u8, int), ThurgoodError> {
    if 0 <= pos < bytes.len() {
        Ok((bytes[pos], pos + 1))
    } else {
        Err(ThurgoodError::IO)
    }
}

/// A length and that many bytes.
pub open spec fn spec_read_len_bytes(bytes: Seq<u8>, pos: int) -> Result<
    (Seq<u8>, int),
    ThurgoodError,
> {
    match spec_read_int(bytes, pos) {
        Err(e) => Err(e),
        Ok((v, p)) => {
            let n = spec_count(v) as int;
            if n > bytes.len() - p {
                Err(ThurgoodError::IO)
            } else {
                Ok((bytes.subrange(p, p + n), p + n))
            }
        },
    }
}

/// A length and that many bytes, which must be UTF-8.
pub open spec fn spec_read_text(bytes: Seq<u8>, pos: int) -> Result<
    (Seq<char>, int),
    ThurgoodError,
> {
    match spec_read_len_bytes(bytes, pos) {
        Err(e) => Err(e),
        Ok((data, p)) => match spec_text(data) {
            Some(text) => Ok((text, p)),
            None => Err(ThurgoodError::Utf8),
        },
    }
}

/// The body of a float: a length and that many bytes, of which those before
/// the first zero byte must be a numeral.
#[verifier::opaque]
pub open spec fn spec_read_float(bytes: Seq<u8>, pos: int) -> Result<(Node, int), ThurgoodError> {
    match spec_read_len_bytes(bytes, pos) {
        Err(e) => Err(e),
        Ok((data, p)) => {
            let text = spec_until_nul(data);
            if spec_is_float(text) {
                Ok((Node::Float(text), p))
            } else if !valid_utf8(text) {
                Err(ThurgoodError::Utf8)
            } else {
                Err(ThurgoodError::ParseFloat)
            }
        },
    }
}

/// The body of a big integer: a sign byte, a count of 16-bit words, and
/// twice that many bytes of magnitude, least significant first.
pub open spec fn spec_read_bignum(bytes: Seq<u8>, pos: int) -> Result<(Node, int), ThurgoodError> {
    match spec_read_byte(bytes, pos) {
        Err(e) => Err(e),
        Ok((sign, q0)) => match spec_read_int(bytes, q0) {
            Err(e) => Err(e),
            Ok((v, p)) => {
                let n = 2 * (spec_count(v) as int);
                if n > bytes.len() - p {
                    Err(ThurgoodError::IO)
                } else {
                    let magnitude = spec_magnitude(bytes.subrange(p, p + n));
                    Ok(
                        (
                            Node::BigInt {
                                negative: sign != 43 && magnitude != seq![0u8],
                                magnitude,
                            },
                            p + n,
                        ),
                    )
                }
            },
        },
    }
}

/// The body of a bare string: a length and that many bytes. They must be
/// UTF-8, unless the reader is lax: then bytes that are not UTF-8 are kept
/// as a string without fields.
pub open spec fn spec_read_string(bytes: Seq<u8>, pos: int, lax: bool) -> Result<
    (Node, int),
    ThurgoodError,
> {
    match spec_read_len_bytes(bytes, pos) {
        Err(e) => Err(e),
        Ok((data, p)) => match spec_text(data) {
            Some(text) => Ok((Node::Str(text), p)),
            None => if lax {
                Ok((Node::StrI { content: data, metadata: Seq::empty() }, p))
            } else {
                Err(ThurgoodError::Utf8)
            },
        },
    }
}

/// The body of a bare regex: a length, that many bytes, and one byte of
/// flags. The bytes must be UTF-8.
pub open spec fn spec_read_regex(bytes: Seq<u8>, pos: int) -> Result<(Node, int), ThurgoodError> {
    match spec_read_len_bytes(bytes, pos) {
        Err(e) => Err(e),
        Ok((data, q0)) => match spec_read_byte(bytes, q0) {
            Err(e) => Err(e),
            Ok((flags, p)) => match spec_text(data) {
                Some(text) => Ok((Node::Regex { content: text, flags: flags as u32 }, p)),
                None => Err(ThurgoodError::Utf8),
            },
        },
    }
}

/// A new symbol: a length and that many bytes. It takes the next place in
/// the symbol table.
pub open spec fn spec_read_symbol(bytes: Seq<u8>, pos: int, st: ReadState) -> Parsed<Value> {
    match spec_read_len_bytes(bytes, pos) {
        Err(e) => Err(e),
        Ok((s, p)) => Ok(
            (
                Value::Symbol(s),
                p,
                ReadState { heap: st.heap, symbols: st.symbols.push(s), objects: st.objects },
            ),
        ),
    }
}

/// A symbol that occurred before: its index in the symbol table.
pub open spec fn spec_read_symbol_ref(bytes: Seq<u8>, pos: int, st: ReadState) -> Parsed<Value> {
    match spec_read_int(bytes, pos) {
        Err(e) => Err(e),
        Ok((v, p)) => if spec_count(v) < st.symbols.len() {
            Ok((Value::Symbol(st.symbols[spec_count(v) as int]), p, st))
        } else {
            Err(ThurgoodError::BadSymbolRef(spec_count(v)))
        },
    }
}

/// An object that occurred before, or that is being read: its index in the
/// object table.
pub open spec fn spec_read_object_ref(bytes: Seq<u8>, pos: int, st: ReadState) -> Parsed<Value> {
    match spec_read_int(bytes, pos) {
        Err(e) => Err(e),
        Ok((v, p)) => if spec_count(v) < st.objects.len() {
            Ok((Value::Ref(st.objects[spec_count(v) as int]), p, st))
        } else {
            Err(ThurgoodError::BadObjectRef(spec_count(v)))
        },
    }
}

/// One entry: a tag byte and what the tag calls for.
pub open spec fn spec_read_entry(bytes: Seq<u8>, pos: int, st: ReadState, lax: bool) -> Parsed<
    Value,
>
    decreases bytes.len() - pos, 0int,
{
    if !(0 <= pos < bytes.len()) {
        Err(ThurgoodError::IO)
    } else {
        let tag = bytes[pos];
        if tag == T_TRUE {
            Ok((Value::True, pos + 1, st))
        } else if tag == T_FALSE {
            Ok((Value::False, pos + 1, st))
        } else if tag == T_NIL {
            Ok((Value::Nil, pos + 1, st))
        } else if tag == T_INT {
            match spec_read_int(bytes, pos + 1) {
                Err(e) => Err(e),
                Ok((v, p)) => Ok((Value::Int(v), p, st)),
            }
        } else if tag == T_SYMBOL {
            spec_read_symbol(bytes, pos + 1, st)
        } else if tag == T_SYMBOL_REF {
            spec_read_symbol_ref(bytes, pos + 1, st)
        } else if tag == T_OBJECT_REF {
            spec_read_object_ref(bytes, pos + 1, st)
        } else {
            spec_read_ref(bytes, pos + 1, st, lax, tag)
        }
    }
}

/// One entry, which must be a symbol.
pub open spec fn spec_read_entry_symbol(
    bytes: Seq<u8>,
    pos: int,
    st: ReadState,
    lax: bool,
) -> Parsed<Seq<u8>>
    decreases bytes.len() - pos, 1int,
{
    match spec_read_entry(bytes, pos, st, lax) {
        Err(e) => Err(e),
        Ok((v, p, s)) => match v {
            Value::Symbol(name) => Ok((name, p, s)),
            _ => Err(
                ThurgoodError::UnexpectedType {
                    expected: RbType::Symbol,
                    found: spec_type_of(s.heap, v),
                },
            ),
        },
    }
}

/// `n` entries, after those of `acc`.
pub open spec fn spec_read_items(
    bytes: Seq<u8>,
    pos: int,
    st: ReadState,
    lax: bool,
    n: int,
    acc: Seq<Value>,
) -> Parsed<Seq<Value>>
    decreases bytes.len() - pos, 1int,
{
    if n <= 0 {
        Ok((acc, pos, st))
    } else {
        match spec_read_entry(bytes, pos, st, lax) {
            Err(e) => Err(e),
            Ok((v, p, s)) => if pos < p <= bytes.len() {
                spec_read_items(bytes, p, s, lax, n - 1, acc.push(v))
            } else {
                Err(ThurgoodError::IO)
            },
        }
    }
}

/// `n` fields, inserted into `acc`: each a symbol and an entry.
pub open spec fn spec_read_pairs(
    bytes: Seq<u8>,
    pos: int,
    st: ReadState,
    lax: bool,
    n: int,
    acc: Seq<(Seq<u8>, Value)>,
) -> Parsed<Seq<(Seq<u8>, Value)>>
    decreases bytes.len() - pos, 1int,
{
    if n <= 0 {
        Ok((acc, pos, st))
    } else {
        match spec_read_entry(bytes, pos, st, lax) {
            Err(e) => Err(e),
            Ok((k, q1, s1)) => match k {
                Value::Symbol(name) => if pos < q1 <= bytes.len() {
                    match spec_read_entry(bytes, q1, s1, lax) {
                        Err(e) => Err(e),
                        Ok((v, q2, s2)) => if q1 < q2 <= bytes.len() {
                            spec_read_pairs(bytes, q2, s2, lax, n - 1, spec_insert(acc, name, v))
                        } else {
                            Err(ThurgoodError::IO)
                        },
                    }
                } else {
                    Err(ThurgoodError::IO)
                },
                _ => Err(
                    ThurgoodError::UnexpectedType {
                        expected: RbType::Symbol,
                        found: spec_type_of(s1.heap, k),
                    },
                ),
            },
        }
    }
}

/// `n` entries of a hash, inserted into `acc`: each a key and a value.
pub open spec fn spec_read_entries(
    bytes: Seq<u8>,
    pos: int,
    st: ReadState,
    lax: bool,
    n: int,
    acc: Seq<(Value, Value)>,
) -> Parsed<Seq<(Value, Value)>>
    decreases bytes.len() - pos, 1int,
{
    if n <= 0 {
        Ok((acc, pos, st))
    } else {
        match spec_read_entry(bytes, pos, st, lax) {
            Err(e) => Err(e),
            Ok((k, q1, s1)) => if pos < q1 <= bytes.len() {
                match spec_read_entry(bytes, q1, s1, lax) {
                    Err(e) => Err(e),
                    Ok((v, q2, s2)) => if q1 < q2 <= bytes.len() {
                        spec_read_entries(bytes, q2, s2, lax, n - 1, spec_insert(acc, k, v))
                    } else {
                        Err(ThurgoodError::IO)
                    },
                }
            } else {
                Err(ThurgoodError::IO)
            },
        }
    }
}

/// The field tail of an instance: a count and that many fields.
pub open spec fn spec_read_tail(bytes: Seq<u8>, pos: int, st: ReadState, lax: bool) -> Parsed<
    Seq<(Seq<u8>, Value)>,
>
    decreases bytes.len() - pos, 2int,
{
    match spec_read_int(bytes, pos) {
        Err(e) => Err(e),
        Ok((v, p)) => spec_read_pairs(bytes, p, st, lax, spec_count(v) as int, Seq::empty()),
    }
}

/// The body of an object or a struct: the name of the class, a count, and
/// that many fields.
pub open spec fn spec_read_object(bytes: Seq<u8>, pos: int, st: ReadState, lax: bool) -> Parsed<
    (Seq<u8>, Seq<(Seq<u8>, Value)>),
>
    decreases bytes.len() - pos, 3int,
{
    match spec_read_entry_symbol(bytes, pos, st, lax) {
        Err(e) => Err(e),
        Ok((name, q1, s1)) => if pos < q1 <= bytes.len() {
            match spec_read_tail(bytes, q1, s1, lax) {
                Err(e) => Err(e),
                Ok((fields, q2, s2)) => Ok(((name, fields), q2, s2)),
            }
        } else {
            Err(ThurgoodError::IO)
        },
    }
}

/// The body of an envelope: a name and one entry.
pub open spec fn spec_read_class(bytes: Seq<u8>, pos: int, st: ReadState, lax: bool) -> Parsed<
    (Seq<u8>, Value),
>
    decreases bytes.len() - pos, 3int,
{
    match spec_read_entry_symbol(bytes, pos, st, lax) {
        Err(e) => Err(e),
        Ok((name, q1, s1)) => if pos < q1 <= bytes.len() {
            match spec_read_entry(bytes, q1, s1, lax) {
                Err(e) => Err(e),
                Ok((data, q2, s2)) => Ok(((name, data), q2, s2)),
            }
        } else {
            Err(ThurgoodError::IO)
        },
    }
}

/// The body of an array: a count and that many entries. A negative count
/// stands for none.
pub open spec fn spec_read_array(bytes: Seq<u8>, pos: int, st: ReadState, lax: bool) -> Parsed<
    Node,
>
    decreases bytes.len() - pos, 3int,
{
    match spec_read_int(bytes, pos) {
        Err(e) => Err(e),
        Ok((v, p)) => spec_as_array(spec_read_items(bytes, p, st, lax, v as int, Seq::empty())),
    }
}

/// The array of the entries that were read.
pub open spec fn spec_as_array(r: Parsed<Seq<Value>>) -> Parsed<Node> {
    match r {
        Err(e) => Err(e),
        Ok((items, p, s)) => Ok((Node::Array(items), p, s)),
    }
}

/// The body of user data: a name, a length and that many bytes.
pub open spec fn spec_read_user_data(bytes: Seq<u8>, pos: int, st: ReadState, lax: bool) -> Parsed<
    Node,
>
    decreases bytes.len() - pos, 3int,
{
    match spec_read_entry_symbol(bytes, pos, st, lax) {
        Err(e) => Err(e),
        Ok((name, q1, s1)) => match spec_read_len_bytes(bytes, q1) {
            Err(e) => Err(e),
            Ok((data, q2)) => Ok((Node::UserData { name, data }, q2, s1)),
        },
    }
}

/// The body of a hash: a count, that many entries, and the default value if
/// the tag says that there is one.
pub open spec fn spec_read_hash(
    bytes: Seq<u8>,
    pos: int,
    st: ReadState,
    lax: bool,
    has_default: bool,
) -> Parsed<Node>
    decreases bytes.len() - pos, 3int,
{
    match spec_read_int(bytes, pos) {
        Err(e) => Err(e),
        Ok((v, q0)) => spec_read_default(
            bytes,
            q0,
            lax,
            has_default,
            spec_read_entries(bytes, q0, st, lax, spec_count(v) as int, Seq::empty()),
        ),
    }
}

/// The hash of the entries that were read from `q0` on, with the default
/// value that follows them if there is to be one.
pub open spec fn spec_read_default(
    bytes: Seq<u8>,
    q0: int,
    lax: bool,
    has_default: bool,
    r: Parsed<Seq<(Value, Value)>>,
) -> Parsed<Node>
    decreases bytes.len() - q0, 2int,
{
    match r {
        Err(e) => Err(e),
        Ok((entries, q1, s1)) => if !has_default {
            Ok((Node::Hash { entries, default: None }, q1, s1))
        } else if q0 <= q1 <= bytes.len() {
            match spec_read_entry(bytes, q1, s1, lax) {
                Err(e) => Err(e),
                Ok((d, q2, s2)) => Ok((Node::Hash { entries, default: Some(d) }, q2, s2)),
            }
        } else {
            Err(ThurgoodError::IO)
        },
    }
}

/// An object as an instance: the body of the object and a field tail. The
/// object takes the fields of the tail after its own.
pub open spec fn spec_read_instance_object(
    bytes: Seq<u8>,
    pos: int,
    st: ReadState,
    lax: bool,
) -> Parsed<Node>
    decreases bytes.len() - pos, 4int,
{
    match spec_read_object(bytes, pos, st, lax) {
        Err(e) => Err(e),
        Ok(((name, fields), q1, s1)) => if pos < q1 <= bytes.len() {
            match spec_read_tail(bytes, q1, s1, lax) {
                Err(e) => Err(e),
                Ok((more, q2, s2)) => Ok(
                    (
                        Node::Object { name, fields: spec_extend(fields, more, more.len() as int) },
                        q2,
                        s2,
                    ),
                ),
            }
        } else {
            Err(ThurgoodError::IO)
        },
    }
}

/// A string as an instance: a length, that many bytes, and a field tail. A
/// tail that marks the string as UTF-8 is dropped and the bytes are decoded
/// as text; otherwise the string keeps its bytes and its tail.
pub open spec fn spec_read_instance_string(
    bytes: Seq<u8>,
    pos: int,
    st: ReadState,
    lax: bool,
) -> Parsed<Node>
    decreases bytes.len() - pos, 4int,
{
    match spec_read_len_bytes(bytes, pos) {
        Err(e) => Err(e),
        Ok((data, q1)) => match spec_read_tail(bytes, q1, st, lax) {
            Err(e) => Err(e),
            Ok((fields, q2, s2)) => if !spec_is_utf8(fields) {
                Ok((Node::StrI { content: data, metadata: fields }, q2, s2))
            } else {
                match spec_text(data) {
                    Some(text) => Ok((Node::Str(text), q2, s2)),
                    None => Err(ThurgoodError::Utf8),
                }
            },
        },
    }
}

/// A regex as an instance: a length, that many bytes, one byte of flags,
/// and a field tail, which is treated as that of a string.
pub open spec fn spec_read_instance_regex(
    bytes: Seq<u8>,
    pos: int,
    st: ReadState,
    lax: bool,
) -> Parsed<Node>
    decreases bytes.len() - pos, 4int,
{
    match spec_read_len_bytes(bytes, pos) {
        Err(e) => Err(e),
        Ok((data, q1)) => match spec_read_byte(bytes, q1) {
            Err(e) => Err(e),
            Ok((flags, q2)) => match spec_read_tail(bytes, q2, st, lax) {
                Err(e) => Err(e),
                Ok((fields, q3, s3)) => if !spec_is_utf8(fields) {
                    Ok(
                        (
                            Node::RegexI { content: data, flags: flags as u32, metadata: fields },
                            q3,
                            s3,
                        ),
                    )
                } else {
                    match spec_text(data) {
                        Some(text) => Ok(
                            (Node::Regex { content: text, flags: flags as u32 }, q3, s3),
                        ),
                        None => Err(ThurgoodError::Utf8),
                    }
                },
            },
        },
    }
}

/// The body of an instance: the tag of a string, a regex or an object, and
/// what that tag calls for in an instance.
#[verifier::opaque]
pub open spec fn spec_read_instance(bytes: Seq<u8>, pos: int, st: ReadState, lax: bool) -> Parsed<
    Node,
>
    decreases bytes.len() - pos, 5int,
{
    match spec_read_byte(bytes, pos) {
        Err(e) => Err(e),
        Ok((tag, q0)) => if tag == T_OBJECT {
            spec_read_instance_object(bytes, q0, st, lax)
        } else if tag == T_STRING {
            spec_read_instance_string(bytes, q0, st, lax)
        } else if tag == T_REGEX {
            spec_read_instance_regex(bytes, q0, st, lax)
        } else {
            Err(ThurgoodError::BadInstanceType(tag))
        },
    }
}

/// The result of a step that reads no entries, with the state as it was.
pub open spec fn spec_plain<T>(r: Result<(T, int), ThurgoodError>, st: ReadState) -> Parsed<T> {
    match r {
        Err(e) => Err(e),
        Ok((v, p)) => Ok((v, p, st)),
    }
}

/// The payload of an object with the given tag.
#[verifier::opaque]
pub open spec fn spec_read_payload(
    bytes: Seq<u8>,
    pos: int,
    st: ReadState,
    lax: bool,
    tag: u8,
) -> Parsed<Node>
    decreases bytes.len() - pos, 6int,
{
    if tag == T_INSTANCE {
        spec_read_instance(bytes, pos, st, lax)
    } else if tag == T_ARRAY {
        spec_read_array(bytes, pos, st, lax)
    } else if tag == T_BIGNUM {
        spec_plain(spec_read_bignum(bytes, pos), st)
    } else if tag == T_CLASS {
        match spec_read_text(bytes, pos) {
            Err(e) => Err(e),
            Ok((name, p)) => Ok((Node::ClassRef(name), p, st)),
        }
    } else if tag == T_MODULE {
        match spec_read_text(bytes, pos) {
            Err(e) => Err(e),
            Ok((name, p)) => Ok((Node::ModuleRef(name), p, st)),
        }
    } else if tag == T_CLASS_MODULE {
        match spec_read_text(bytes, pos) {
            Err(e) => Err(e),
            Ok((name, p)) => Ok((Node::ClassModuleRef(name), p, st)),
        }
    } else if tag == T_DATA {
        match spec_read_class(bytes, pos, st, lax) {
            Err(e) => Err(e),
            Ok(((name, data), p, s)) => Ok((Node::Data { name, data }, p, s)),
        }
    } else if tag == T_FLOAT {
        spec_plain(spec_read_float(bytes, pos), st)
    } else if tag == T_HASH {
        spec_read_hash(bytes, pos, st, lax, false)
    } else if tag == T_HASH_DEFAULT {
        spec_read_hash(bytes, pos, st, lax, true)
    } else if tag == T_REGEX {
        spec_plain(spec_read_regex(bytes, pos), st)
    } else if tag == T_STRING {
        spec_plain(spec_read_string(bytes, pos, lax), st)
    } else if tag == T_OBJECT {
        match spec_read_object(bytes, pos, st, lax) {
            Err(e) => Err(e),
            Ok(((name, fields), p, s)) => Ok((Node::Object { name, fields }, p, s)),
        }
    } else if tag == T_STRUCT {
        match spec_read_object(bytes, pos, st, lax) {
            Err(e) => Err(e),
            Ok(((name, fields), p, s)) => Ok((Node::Struct { name, fields }, p, s)),
        }
    } else if tag == T_USER_CLASS {
        match spec_read_class(bytes, pos, st, lax) {
            Err(e) => Err(e),
            Ok(((name, data), p, s)) => Ok((Node::UserClass { name, data }, p, s)),
        }
    } else if tag == T_USER_DEFINED {
        spec_read_user_data(bytes, pos, st, lax)
    } else if tag == T_USER_MARSHAL {
        match spec_read_class(bytes, pos, st, lax) {
            Err(e) => Err(e),
            Ok(((name, data), p, s)) => Ok((Node::UserMarshal { name, data }, p, s)),
        }
    } else {
        Err(ThurgoodError::BadTypeByte(tag))
    }
}

/// An instance whose second tag is that of a string.
pub proof fn lemma_instance_string(bytes: Seq<u8>, pos: int, st: ReadState, lax: bool)
    requires
        spec_read_byte(bytes, pos) == Ok::<(u8, int), ThurgoodError>((T_STRING, pos + 1)),
    ensures
        spec_read_instance(bytes, pos, st, lax) == spec_read_instance_string(
            bytes,
            pos + 1,
            st,
            lax,
        ),
{
    reveal(spec_read_instance);
}

/// An instance whose second tag is that of a regex.
pub proof fn lemma_instance_regex(bytes: Seq<u8>, pos: int, st: ReadState, lax: bool)
    requires
        spec_read_byte(bytes, pos) == Ok::<(u8, int), ThurgoodError>((T_REGEX, pos + 1)),
    ensures
        spec_read_instance(bytes, pos, st, lax) == spec_read_instance_regex(
            bytes,
            pos + 1,
            st,
            lax,
        ),
{
    reveal(spec_read_instance);
}

/// The payload of an instance.
pub proof fn lemma_payload_instance(bytes: Seq<u8>, pos: int, st: ReadState, lax: bool)
    ensures
        spec_read_payload(bytes, pos, st, lax, T_INSTANCE) == spec_read_instance(
            bytes,
            pos,
            st,
            lax,
        ),
{
    reveal(spec_read_payload);
    reveal(spec_read_instance);
}

/// The payload of an array.
pub proof fn lemma_payload_array(bytes: Seq<u8>, pos: int, st: ReadState, lax: bool)
    ensures
        spec_read_payload(bytes, pos, st, lax, T_ARRAY) == spec_read_array(bytes, pos, st, lax),
{
    reveal(spec_read_payload);
}

/// The payload of a big integer.
pub proof fn lemma_payload_bignum(bytes: Seq<u8>, pos: int, st: ReadState, lax: bool)
    ensures
        spec_read_payload(bytes, pos, st, lax, T_BIGNUM) == spec_plain(
            spec_read_bignum(bytes, pos),
            st,
        ),
{
    reveal(spec_read_payload);
}

/// The payload of a float.
pub proof fn lemma_payload_float(bytes: Seq<u8>, pos: int, st: ReadState, lax: bool)
    ensures
        spec_read_payload(bytes, pos, st, lax, T_FLOAT) == spec_plain(
            spec_read_float(bytes, pos),
            st,
        ),
{
    reveal(spec_read_payload);
}

/// The payload of the name of a class or module.
pub proof fn lemma_payload_name(bytes: Seq<u8>, pos: int, st: ReadState, lax: bool, tag: u8)
    requires
        tag == T_CLASS || tag == T_MODULE || tag == T_CLASS_MODULE,
    ensures
        spec_read_payload(bytes, pos, st, lax, tag) == (match spec_read_text(bytes, pos) {
            Err(e) => Err(e),
            Ok((name, p)) => Ok(
                (
                    if tag == T_CLASS {
                        Node::ClassRef(name)
                    } else if tag == T_MODULE {
                        Node::ModuleRef(name)
                    } else {
                        Node::ClassModuleRef(name)
                    },
                    p,
                    st,
                ),
            ),
        }),
{
    reveal(spec_read_payload);
}

/// The payload of an envelope.
pub proof fn lemma_payload_envelope(bytes: Seq<u8>, pos: int, st: ReadState, lax: bool, tag: u8)
    requires
        tag == T_DATA || tag == T_USER_CLASS || tag == T_USER_MARSHAL,
    ensures
        spec_read_payload(bytes, pos, st, lax, tag) == (match spec_read_class(
            bytes,
            pos,
            st,
            lax,
        ) {
            Err(e) => Err(e),
            Ok(((name, data), p, s)) => Ok(
                (
                    if tag == T_DATA {
                        Node::Data { name, data }
                    } else if tag == T_USER_CLASS {
                        Node::UserClass { name, data }
                    } else {
                        Node::UserMarshal { name, data }
                    },
                    p,
                    s,
                ),
            ),
        }),
{
    reveal(spec_read_payload);
}

/// The payload of a hash.
pub proof fn lemma_payload_hash(
    bytes: Seq<u8>,
    pos: int,
    st: ReadState,
    lax: bool,
    has_default: bool,
)
    ensures
        spec_read_payload(
            bytes,
            pos,
            st,
            lax,
            if has_default {
                T_HASH_DEFAULT
            } else {
                T_HASH
            },
        ) == spec_read_hash(bytes, pos, st, lax, has_default),
{
    reveal(spec_read_payload);
}

/// The payload of an object or a struct.
pub proof fn lemma_payload_object(bytes: Seq<u8>, pos: int, st: ReadState, lax: bool, tag: u8)
    requires
        tag == T_OBJECT || tag == T_STRUCT,
    ensures
        spec_read_payload(bytes, pos, st, lax, tag) == (match spec_read_object(
            bytes,
            pos,
            st,
            lax,
        ) {
            Err(e) => Err(e),
            Ok(((name, fields), p, s)) => Ok(
                (
                    if tag == T_OBJECT {
                        Node::Object { name, fields }
                    } else {
                        Node::Struct { name, fields }
                    },
                    p,
                    s,
                ),
            ),
        }),
{
    reveal(spec_read_payload);
}

/// The payload of user data.
pub proof fn lemma_payload_user_data(bytes: Seq<u8>, pos: int, st: ReadState, lax: bool)
    ensures
        spec_read_payload(bytes, pos, st, lax, T_USER_DEFINED) == spec_read_user_data(
            bytes,
            pos,
            st,
            lax,
        ),
{
    reveal(spec_read_payload);
}

/// What follows the tag of an object. An extended object is a symbol and
/// an entry, and takes no place in the object table. Any other object takes
/// the next place in the object table before its payload is read, so that
/// the payload can refer to it.
pub open spec fn spec_read_ref(
    bytes: Seq<u8>,
    pos: int,
    st: ReadState,
    lax: bool,
    tag: u8,
) -> Parsed<Value>
    decreases bytes.len() - pos, 7int,
{
    if tag == T_EXTENDED {
        match spec_read_class(bytes, pos, st, lax) {
            Err(e) => Err(e),
            Ok(((module, object), p, s)) => Ok(
                (
                    Value::Ref(s.heap.len() as int),
                    p,
                    ReadState {
                        heap: s.heap.push(Node::Extended { module, object }),
                        symbols: s.symbols,
                        objects: s.objects,
                    },
                ),
            ),
        }
    } else {
        let id = st.heap.len() as int;
        let opened = ReadState {
            heap: st.heap.push(spec_placeholder()),
            symbols: st.symbols,
            objects: st.objects.push(id),
        };
        match spec_read_payload(bytes, pos, opened, lax, tag) {
            Err(e) => Err(e),
            Ok((node, p, s)) => Ok(
                (
                    Value::Ref(id),
                    p,
                    ReadState {
                        heap: s.heap.update(id, node),
                        symbols: s.symbols,
                        objects: s.objects,
                    },
                ),
            ),
        }
    }
}

/// Decoding a stream: the header, which must be version 4.8, and one entry.
/// Gives the graph and the value that was read; bytes after the entry are
/// not looked at.
pub open spec fn spec_decode(bytes: Seq<u8>, lax: bool) -> Result<
    (Seq<Node>, Value),
    ThurgoodError,
> {
    if bytes.len() < 2 {
        Err(ThurgoodError::IO)
    } else if bytes[0] != 4 || bytes[1] != 8 {
        Err(ThurgoodError::Version(bytes[0], bytes[1]))
    } else {
        match spec_read_entry(bytes, 2, spec_start(), lax) {
            Err(e) => Err(e),
            Ok((v, p, s)) => Ok((s.heap, v)),
        }
    }
}

/// Decoding a stream, with the position at which the reader stops: the
/// position after the last byte of the entry. No byte from there on is
/// looked at.
pub open spec fn spec_decode_counted(bytes: Seq<u8>, lax: bool) -> Result<
    (Seq<Node>, Value, int),
    ThurgoodError,
> {
    if bytes.len() < 2 {
        Err(ThurgoodError::IO)
    } else if bytes[0] != 4 || bytes[1] != 8 {
        Err(ThurgoodError::Version(bytes[0], bytes[1]))
    } else {
        match spec_read_entry(bytes, 2, spec_start(), lax) {
            Err(e) => Err(e),
            Ok((v, q, s)) => Ok((s.heap, v, q)),
        }
    }
}

} // verus!
