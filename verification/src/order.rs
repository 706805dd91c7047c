//! Deep comparison of two values, as a mathematical definition.
//!
//! Values are ordered by kind first and by content second. Two handles are
//! compared by the objects they name. Objects may lead back to themselves,
//! so the comparison keeps a record of the pairs of objects it has met:
//! a pair that is met for the first time is entered as undecided before the
//! two objects are compared, and its outcome is entered after. A pair that
//! is met again gives what the record holds for it, which ends the cycle.

use vstd::prelude::*;
use vstd::utf8::encode_utf8;
use crate::decimal::ord_numerals;
use crate::float::spec_is_nan;
use crate::node::{spec_ordinal, Node};
use crate::rank::{ord_bytes, ord_int, spec_bigint_value, Rank};
use crate::value::Value;

verus! {

/// The record of the pairs met: for the key of a pair, the code of what is
/// known of the pair.
pub type Seen = Map<u128, u8>;

/// What a step of the comparison gives: the outcome, if there is one, and
/// the record after the step.
pub type Judged = (Option<Rank>, Seen);

/// The key of the pair of the objects at place `a` of the left graph and
/// place `b` of the right graph.
pub open spec fn spec_pair_key(a: int, b: int) -> u128 {
    (a * 0x1_0000_0000_0000_0000 + b) as u128
}

/// The code of a outcome: 0 for a pair that is undecided.
pub open spec fn spec_code(v: Option<Rank>) -> u8 {
    match v {
        None => 0,
        Some(Rank::Less) => 1,
        Some(Rank::Equal) => 2,
        Some(Rank::Greater) => 3,
    }
}

/// The outcome that a code stands for.
pub open spec fn spec_outcome(c: u8) -> Option<Rank> {
    if c == 0 {
        None
    } else if c == 1 {
        Some(Rank::Less)
    } else if c == 2 {
        Some(Rank::Equal)
    } else {
        Some(Rank::Greater)
    }
}

/// What a comparison goes by: how many pairs of objects there are, and
/// whether the two values are of one graph.
#[derive(Clone, Copy)]
pub struct Scope {
    /// The number of pairs of an object of the left graph and an object of
    /// the right graph.
    pub total: u128,
    /// Both values are of the same graph, so that two handles name the
    /// same object exactly when their places are the same.
    pub same: bool,
}

/// How many more pairs the record can take.
pub open spec fn spec_room(seen: Seen, total: Scope) -> nat {
    if seen.dom().finite() && seen.dom().len() <= total.total {
        (total.total - seen.dom().len()) as nat
    } else {
        0
    }
}

/// The order of two objects of different graphs whose contents have no
/// order. A float that is no number comes after every number, and two such
/// floats are ordered by their numerals. Two objects that lead back to a
/// pair that is being compared are equal so far.
pub open spec fn ord_loose(l: Node, r: Node) -> Rank {
    match (l, r) {
        (Node::Float(x), Node::Float(y)) => if spec_is_nan(x) && spec_is_nan(y) {
            ord_bytes(x, y)
        } else if spec_is_nan(x) {
            Rank::Greater
        } else if spec_is_nan(y) {
            Rank::Less
        } else {
            Rank::Equal
        },
        _ => Rank::Equal,
    }
}

/// The order of the objects at the places `a` and `b`, whose contents have
/// no order. In one graph the places decide: the same place is the same
/// object. Places of two graphs say nothing of each other, so there the
/// contents decide as far as they can.
pub open spec fn ord_unordered(same: bool, a: int, b: int, l: Node, r: Node) -> Rank {
    if same {
        ord_int(a, b)
    } else {
        ord_loose(l, r)
    }
}

/// The place of the kind of a value in the order of kinds: nil, false,
/// true, integers, symbols, objects.
pub open spec fn spec_any_id(v: Value) -> int {
    match v {
        Value::Nil => 0,
        Value::False => 1,
        Value::True => 2,
        Value::Int(_) => 3,
        Value::Symbol(_) => 4,
        Value::Ref(_) => 5,
    }
}

/// A outcome, or equal where there is none.
pub open spec fn spec_settled(v: Option<Rank>) -> Rank {
    match v {
        Some(r) => r,
        None => Rank::Equal,
    }
}

/// The first of two ranks that is not equal.
pub open spec fn spec_then(a: Rank, b: Rank) -> Rank {
    if a == Rank::Equal {
        b
    } else {
        a
    }
}

/// The order of two values. Integers are ordered by value and symbols by
/// their bytes. Two handles are ordered as the objects they name; where
/// the comparison of the objects gives no outcome, the handles are ordered
/// by their places if both are of one graph, and else by what their contents
/// allow. Values of different kinds are ordered by kind.
pub open spec fn ord_any(
    hl: Seq<Node>,
    hr: Seq<Node>,
    l: Value,
    r: Value,
    seen: Seen,
    total: Scope,
) -> Judged
    decreases spec_room(seen, total), 0int, 0int,
{
    match (l, r) {
        (Value::Int(a), Value::Int(b)) => (Some(ord_int(a as int, b as int)), seen),
        (Value::Symbol(a), Value::Symbol(b)) => (Some(ord_bytes(a, b)), seen),
        (Value::Ref(a), Value::Ref(b)) => {
            let key = spec_pair_key(a, b);
            if !(0 <= a < hl.len() && 0 <= b < hr.len()) {
                (Some(ord_int(a, b)), seen)
            } else if seen.dom().contains(key) {
                (spec_outcome(seen[key]), seen)
            } else if !(seen.dom().finite() && seen.dom().len() < total.total) {
                (Some(ord_int(a, b)), seen)
            } else {
                let inner = ord_ref(hl, hr, hl[a], hr[b], seen.insert(key, 0u8), total);
                let outcome = match inner.0 {
                    Some(v) => v,
                    None => ord_unordered(total.same, a, b, hl[a], hr[b]),
                };
                (Some(outcome), inner.1.insert(key, spec_code(Some(outcome))))
            }
        },
        _ => (Some(ord_int(spec_any_id(l), spec_any_id(r))), seen),
    }
}

/// The order of a name with a value: by the name, then by the value.
pub open spec fn ord_symbol_any(
    hl: Seq<Node>,
    hr: Seq<Node>,
    l_sym: Seq<u8>,
    l_any: Value,
    r_sym: Seq<u8>,
    r_any: Value,
    seen: Seen,
    total: Scope,
) -> Judged
    decreases spec_room(seen, total), 1int, 0int,
{
    if ord_bytes(l_sym, r_sym) == Rank::Equal {
        ord_any(hl, hr, l_any, r_any, seen, total)
    } else {
        (Some(ord_bytes(l_sym, r_sym)), seen)
    }
}

/// The order of the values from the `i`-th on of two sequences of one
/// length: that of the first pair that is not equal.
pub open spec fn ord_items(
    hl: Seq<Node>,
    hr: Seq<Node>,
    x: Seq<Value>,
    y: Seq<Value>,
    i: int,
    seen: Seen,
    total: Scope,
) -> Judged
    decreases spec_room(seen, total), 1int, x.len() - i,
{
    if !(0 <= i < x.len() && i < y.len()) {
        (Some(Rank::Equal), seen)
    } else {
        let a = ord_any(hl, hr, x[i], y[i], seen, total);
        if spec_settled(a.0) != Rank::Equal || spec_room(a.1, total) > spec_room(seen, total) {
            (Some(spec_settled(a.0)), a.1)
        } else {
            ord_items(hl, hr, x, y, i + 1, a.1, total)
        }
    }
}

/// The order of the fields from the `i`-th on of two lists of one length:
/// for each pair, by the names, then by the values.
pub open spec fn ord_fields_from(
    hl: Seq<Node>,
    hr: Seq<Node>,
    x: Seq<(Seq<u8>, Value)>,
    y: Seq<(Seq<u8>, Value)>,
    i: int,
    seen: Seen,
    total: Scope,
) -> Judged
    decreases spec_room(seen, total), 1int, x.len() - i,
{
    if !(0 <= i < x.len() && i < y.len()) {
        (Some(Rank::Equal), seen)
    } else if ord_bytes(x[i].0, y[i].0) != Rank::Equal {
        (Some(ord_bytes(x[i].0, y[i].0)), seen)
    } else {
        let a = ord_any(hl, hr, x[i].1, y[i].1, seen, total);
        if spec_settled(a.0) != Rank::Equal || spec_room(a.1, total) > spec_room(seen, total) {
            (Some(spec_settled(a.0)), a.1)
        } else {
            ord_fields_from(hl, hr, x, y, i + 1, a.1, total)
        }
    }
}

/// The order of two lists of fields: by their length, then by their fields
/// in order.
pub open spec fn ord_fields(
    hl: Seq<Node>,
    hr: Seq<Node>,
    x: Seq<(Seq<u8>, Value)>,
    y: Seq<(Seq<u8>, Value)>,
    seen: Seen,
    total: Scope,
) -> Judged
    decreases spec_room(seen, total), 2int, 0int,
{
    if x.len() != y.len() {
        (Some(ord_int(x.len() as int, y.len() as int)), seen)
    } else {
        ord_fields_from(hl, hr, x, y, 0, seen, total)
    }
}

/// The order of the entries from the `i`-th on of two hashes of one
/// length: for each pair, by the keys, then by the values.
pub open spec fn ord_entries(
    hl: Seq<Node>,
    hr: Seq<Node>,
    x: Seq<(Value, Value)>,
    y: Seq<(Value, Value)>,
    i: int,
    seen: Seen,
    total: Scope,
) -> Judged
    decreases spec_room(seen, total), 1int, x.len() - i,
{
    if !(0 <= i < x.len() && i < y.len()) {
        (Some(Rank::Equal), seen)
    } else {
        let k = ord_any(hl, hr, x[i].0, y[i].0, seen, total);
        if spec_settled(k.0) != Rank::Equal || spec_room(k.1, total) > spec_room(seen, total) {
            (Some(spec_settled(k.0)), k.1)
        } else {
            let v = ord_any(hl, hr, x[i].1, y[i].1, k.1, total);
            if spec_settled(v.0) != Rank::Equal || spec_room(v.1, total) > spec_room(seen, total) {
                (Some(spec_settled(v.0)), v.1)
            } else {
                ord_entries(hl, hr, x, y, i + 1, v.1, total)
            }
        }
    }
}

/// The order of two hashes: by the number of entries, then by the entries
/// in order, then by the default values, where a hash without one comes
/// first.
pub open spec fn ord_hash(
    hl: Seq<Node>,
    hr: Seq<Node>,
    x: Seq<(Value, Value)>,
    xd: Option<Value>,
    y: Seq<(Value, Value)>,
    yd: Option<Value>,
    seen: Seen,
    total: Scope,
) -> Judged
    decreases spec_room(seen, total), 2int, 0int,
{
    if x.len() != y.len() {
        (Some(ord_int(x.len() as int, y.len() as int)), seen)
    } else {
        let e = ord_entries(hl, hr, x, y, 0, seen, total);
        if spec_settled(e.0) != Rank::Equal || spec_room(e.1, total) > spec_room(seen, total) {
            (Some(spec_settled(e.0)), e.1)
        } else {
            match (xd, yd) {
                (None, None) => (Some(Rank::Equal), e.1),
                (None, Some(_)) => (Some(Rank::Less), e.1),
                (Some(_), None) => (Some(Rank::Greater), e.1),
                (Some(a), Some(b)) => {
                    let d = ord_any(hl, hr, a, b, e.1, total);
                    (Some(spec_settled(d.0)), d.1)
                },
            }
        }
    }
}

/// The order of two objects or structs: by the name of the class, then by
/// the fields.
pub open spec fn ord_object(
    hl: Seq<Node>,
    hr: Seq<Node>,
    xn: Seq<u8>,
    xf: Seq<(Seq<u8>, Value)>,
    yn: Seq<u8>,
    yf: Seq<(Seq<u8>, Value)>,
    seen: Seen,
    total: Scope,
) -> Judged
    decreases spec_room(seen, total), 3int, 0int,
{
    if ord_bytes(xn, yn) != Rank::Equal {
        (Some(ord_bytes(xn, yn)), seen)
    } else {
        ord_fields(hl, hr, xf, yf, seen, total)
    }
}

/// The order of two regexes: by the bytes, then by the flags, then by the
/// fields if both have any.
pub open spec fn ord_regex(
    hl: Seq<Node>,
    hr: Seq<Node>,
    x: Seq<u8>,
    xf: u32,
    xm: Option<Seq<(Seq<u8>, Value)>>,
    y: Seq<u8>,
    yf: u32,
    ym: Option<Seq<(Seq<u8>, Value)>>,
    seen: Seen,
    total: Scope,
) -> Judged
    decreases spec_room(seen, total), 3int, 0int,
{
    if ord_bytes(x, y) != Rank::Equal {
        (Some(ord_bytes(x, y)), seen)
    } else if ord_int(xf as int, yf as int) != Rank::Equal {
        (Some(ord_int(xf as int, yf as int)), seen)
    } else {
        match (xm, ym) {
            (Some(a), Some(b)) => ord_fields(hl, hr, a, b, seen, total),
            _ => (Some(Rank::Equal), seen),
        }
    }
}

/// The order of two objects of a graph: by kind, in the order of the names
/// of the kinds, and then by content.
pub open spec fn ord_ref(
    hl: Seq<Node>,
    hr: Seq<Node>,
    l: Node,
    r: Node,
    seen: Seen,
    total: Scope,
) -> Judged
    decreases spec_room(seen, total), 4int, 0int,
{
    if spec_ordinal(l) != spec_ordinal(r) {
        (Some(ord_int(spec_ordinal(l), spec_ordinal(r))), seen)
    } else {
        ord_same(hl, hr, l, r, seen, total)
    }
}

/// The order of two objects of one kind: by content.
pub open spec fn ord_same(
    hl: Seq<Node>,
    hr: Seq<Node>,
    l: Node,
    r: Node,
    seen: Seen,
    total: Scope,
) -> Judged
    recommends
        spec_ordinal(l) == spec_ordinal(r),
    decreases spec_room(seen, total), 3int, 1int,
{
    match l {
        Node::Array(x) => if x.len() != r->Array_0.len() {
            (Some(ord_int(x.len() as int, r->Array_0.len() as int)), seen)
        } else {
            ord_items(hl, hr, x, r->Array_0, 0, seen, total)
        },
        Node::BigInt { negative, magnitude } => (
            Some(
                ord_int(
                    spec_bigint_value(negative, magnitude),
                    spec_bigint_value(r->BigInt_negative, r->BigInt_magnitude),
                ),
            ),
            seen,
        ),
        Node::ClassModuleRef(x) => (
            Some(ord_bytes(encode_utf8(x), encode_utf8(r->ClassModuleRef_0))),
            seen,
        ),
        Node::ClassRef(x) => (Some(ord_bytes(encode_utf8(x), encode_utf8(r->ClassRef_0))), seen),
        Node::Data { name, data } => ord_symbol_any(
            hl,
            hr,
            name,
            data,
            r->Data_name,
            r->Data_data,
            seen,
            total,
        ),
        Node::Extended { module, object } => ord_symbol_any(
            hl,
            hr,
            module,
            object,
            r->Extended_module,
            r->Extended_object,
            seen,
            total,
        ),
        Node::Float(x) => (ord_numerals(x, r->Float_0), seen),
        Node::Hash { entries, default } => ord_hash(
            hl,
            hr,
            entries,
            default,
            r->Hash_entries,
            r->Hash_default,
            seen,
            total,
        ),
        Node::ModuleRef(x) => (Some(ord_bytes(encode_utf8(x), encode_utf8(r->ModuleRef_0))), seen),
        Node::Object { name, fields } => ord_object(
            hl,
            hr,
            name,
            fields,
            r->Object_name,
            r->Object_fields,
            seen,
            total,
        ),
        Node::Regex { content, flags } => ord_regex(
            hl,
            hr,
            encode_utf8(content),
            flags,
            None,
            encode_utf8(r->Regex_content),
            r->Regex_flags,
            None,
            seen,
            total,
        ),
        Node::RegexI { content, flags, metadata } => ord_regex(
            hl,
            hr,
            content,
            flags,
            Some(metadata),
            r->RegexI_content,
            r->RegexI_flags,
            Some(r->RegexI_metadata),
            seen,
            total,
        ),
        Node::Str(x) => (Some(ord_bytes(encode_utf8(x), encode_utf8(r->Str_0))), seen),
        Node::StrI { content, metadata } => if ord_bytes(content, r->StrI_content) != Rank::Equal {
            (Some(ord_bytes(content, r->StrI_content)), seen)
        } else {
            ord_fields(hl, hr, metadata, r->StrI_metadata, seen, total)
        },
        Node::Struct { name, fields } => ord_object(
            hl,
            hr,
            name,
            fields,
            r->Struct_name,
            r->Struct_fields,
            seen,
            total,
        ),
        Node::UserClass { name, data } => ord_symbol_any(
            hl,
            hr,
            name,
            data,
            r->UserClass_name,
            r->UserClass_data,
            seen,
            total,
        ),
        Node::UserData { name, data } => (
            Some(spec_then(ord_bytes(name, r->UserData_name), ord_bytes(data, r->UserData_data))),
            seen,
        ),
        Node::UserMarshal { name, data } => ord_symbol_any(
            hl,
            hr,
            name,
            data,
            r->UserMarshal_name,
            r->UserMarshal_data,
            seen,
            total,
        ),
    }
}

/// The deep order of two values, each of its own graph.
pub open spec fn spec_deep_order(hl: Seq<Node>, l: Value, hr: Seq<Node>, r: Value) -> Rank {
    spec_settled(
        ord_any(
            hl,
            hr,
            l,
            r,
            Map::empty(),
            Scope { total: (hl.len() * hr.len()) as u128, same: false },
        ).0,
    )
}

/// The deep order of two values of one graph.
pub open spec fn spec_deep_order_within(h: Seq<Node>, l: Value, r: Value) -> Rank {
    spec_settled(
        ord_any(
            h,
            h,
            l,
            r,
            Map::empty(),
            Scope { total: (h.len() * h.len()) as u128, same: true },
        ).0,
    )
}

} // verus!
