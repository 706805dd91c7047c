//! What is like is deep-equal.
//!
//! Where the objects of two graphs correspond through two object tables,
//! as they do after decoding what was encoded, and no float is `nan`, the
//! deep order finds values that are alike equal.

use vstd::prelude::*;
use crate::float::spec_is_nan;
use crate::context::{heap_ok, node_ok};
use crate::likeness::{like, like_entries, like_fields, like_items, like_node};
use crate::order::spec_deep_order;
use crate::ordered::{lemma_find, spec_find};
use crate::roundtrip::{
    lemma_roundtrip, lemma_tables_agree, spec_encodable, spec_read_back, spec_written,
};
use crate::tables::lemma_payloads_bounded;
use crate::node::{spec_ordinal, Node};
use crate::order::{
    ord_any, ord_entries, ord_fields, ord_fields_from, ord_hash, ord_items, ord_object, ord_ref,
    ord_same, ord_symbol_any, spec_pair_key, spec_room, spec_settled, Judged, Scope, Seen,
};
use crate::rank::{ord_bytes, Rank};
use crate::value::Value;

verus! {

/// Two graphs and the two object tables through which their objects
/// correspond.
pub struct Pairing {
    pub h: Seq<Node>,
    pub g: Seq<Node>,
    pub wo: Seq<int>,
    pub ro: Seq<int>,
}

/// An object that is no float without a number.
pub open spec fn node_numeric(n: Node) -> bool {
    n matches Node::Float(t) ==> !spec_is_nan(t)
}

/// The objects of the two tables are alike, place by place; none of them
/// is a float that is no number; and both graphs are of a size that a
/// machine can hold.
#[verifier::opaque]
pub open spec fn paired(p: Pairing) -> bool {
    &&& p.h.len() < 0x1_0000_0000_0000_0000
    &&& p.g.len() < 0x1_0000_0000_0000_0000
    &&& p.ro.len() == p.wo.len()
    &&& forall|k: int|
        0 <= k < p.wo.len() ==> 0 <= #[trigger] p.wo[k] < p.h.len() && 0 <= p.ro[k] < p.g.len()
            && node_numeric(p.h[p.wo[k]]) && like_node(
            p.h,
            p.g,
            p.wo,
            p.ro,
            p.h[p.wo[k]],
            p.g[p.ro[k]],
        )
}

/// What the comparison of the two graphs goes by.
pub open spec fn spec_scope(p: Pairing) -> Scope {
    Scope { total: (p.h.len() * p.g.len()) as u128, same: false }
}

/// The key is that of a pair of an object of the left graph and an object
/// of the right graph.
pub open spec fn key_in(p: Pairing, key: u128) -> bool {
    (key as int) / 0x1_0000_0000_0000_0000 < p.h.len() && (key as int) % 0x1_0000_0000_0000_0000
        < p.g.len()
}

/// The record holds pairs of the two graphs only, each undecided or found
/// equal.
pub open spec fn seen_ok(p: Pairing, seen: Seen) -> bool {
    &&& seen.dom().finite()
    &&& forall|key: u128|
        seen.dom().contains(key) ==> (#[trigger] seen[key] == 0 || seen[key] == 2) && key_in(
            p,
            key,
        )
}

/// A step of the comparison found nothing unequal, and left the record in
/// order and no smaller.
pub open spec fn agreed(p: Pairing, seen: Seen, r: Judged) -> bool {
    &&& spec_settled(r.0) == Rank::Equal
    &&& seen_ok(p, r.1)
    &&& seen.dom().subset_of(r.1.dom())
}

/// Two objects are alike, or are extended objects of one module that wrap
/// values that are alike.
pub open spec fn alike(p: Pairing, n: Node, m: Node) -> bool {
    ||| like_node(p.h, p.g, p.wo, p.ro, n, m)
    ||| (n is Extended && m is Extended && n->Extended_module == m->Extended_module && like(
        p.h,
        p.g,
        p.wo,
        p.ro,
        n->Extended_object,
        m->Extended_object,
    ))
}

/// A byte string is of equal rank with itself.
pub proof fn lemma_ord_bytes_same(a: Seq<u8>)
    ensures
        ord_bytes(a, a) == Rank::Equal,
    decreases a.len(),
{
    if a.len() > 0 {
        lemma_ord_bytes_same(a.skip(1));
    }
}

/// The key of a pair of places tells the places.
pub proof fn lemma_pair_key(a: int, b: int)
    requires
        0 <= a < 0x1_0000_0000_0000_0000,
        0 <= b < 0x1_0000_0000_0000_0000,
    ensures
        (spec_pair_key(a, b) as int) / 0x1_0000_0000_0000_0000 == a,
        (spec_pair_key(a, b) as int) % 0x1_0000_0000_0000_0000 == b,
{
    let k = a * 0x1_0000_0000_0000_0000 + b;
    assert(0 <= k <= 0xFFFF_FFFF_FFFF_FFFF_FFFF_FFFF_FFFF_FFFF) by (nonlinear_arith)
        requires
            0 <= a < 0x1_0000_0000_0000_0000,
            0 <= b < 0x1_0000_0000_0000_0000,
            k == a * 0x1_0000_0000_0000_0000 + b,
    ;
    assert(k / 0x1_0000_0000_0000_0000 == a && k % 0x1_0000_0000_0000_0000 == b)
        by (nonlinear_arith)
        requires
            0 <= b < 0x1_0000_0000_0000_0000,
            k == a * 0x1_0000_0000_0000_0000 + b,
    ;
}

/// The number that stands for the pair of a key among all pairs of the two
/// graphs.
pub open spec fn spec_pair_number(p: Pairing, key: u128) -> int {
    ((key as int) / 0x1_0000_0000_0000_0000) * p.g.len() + (key as int) % 0x1_0000_0000_0000_0000
}

/// A record in order holds no more pairs than there are, and fewer while a
/// pair is not in it.
pub proof fn lemma_room(p: Pairing, seen: Seen, key: u128)
    requires
        seen_ok(p, seen),
        key_in(p, key),
        !seen.dom().contains(key),
    ensures
        seen.dom().len() < p.h.len() * p.g.len(),
{
    let n = p.h.len() as int;
    let m = p.g.len() as int;
    let all = seen.dom().insert(key);
    let f = |k: u128| spec_pair_number(p, k);
    let image = all.map(f);
    assert(vstd::relations::injective_on(f, all)) by {
        assert forall|x: u128, y: u128|
            all.contains(x) && all.contains(y) && #[trigger] f(x) == #[trigger] f(y) implies x
            == y by {
            let xa = (x as int) / 0x1_0000_0000_0000_0000;
            let xb = (x as int) % 0x1_0000_0000_0000_0000;
            let ya = (y as int) / 0x1_0000_0000_0000_0000;
            let yb = (y as int) % 0x1_0000_0000_0000_0000;
            assert(key_in(p, x)) by {
                if x != key {
                    assert(seen.dom().contains(x));
                    assert(seen[x] == 0 || seen[x] == 2);
                }
            }
            assert(key_in(p, y)) by {
                if y != key {
                    assert(seen.dom().contains(y));
                    assert(seen[y] == 0 || seen[y] == 2);
                }
            }
            assert(xa == ya && xb == yb) by (nonlinear_arith)
                requires
                    xa * m + xb == ya * m + yb,
                    0 <= xb < m,
                    0 <= yb < m,
            ;
            assert(x as int == xa * 0x1_0000_0000_0000_0000 + xb) by (nonlinear_arith)
                requires
                    xa == (x as int) / 0x1_0000_0000_0000_0000,
                    xb == (x as int) % 0x1_0000_0000_0000_0000,
            ;
            assert(y as int == ya * 0x1_0000_0000_0000_0000 + yb) by (nonlinear_arith)
                requires
                    ya == (y as int) / 0x1_0000_0000_0000_0000,
                    yb == (y as int) % 0x1_0000_0000_0000_0000,
            ;
        }
    }
    vstd::set_lib::lemma_map_size(all, image, f);
    assert(0 <= n * m) by (nonlinear_arith)
        requires
            0 <= n,
            0 <= m,
    ;
    vstd::set_lib::lemma_int_range(0, n * m);
    assert(image.subset_of(vstd::set_lib::set_int_range(0, n * m))) by {
        assert forall|v: int| image.contains(v) implies vstd::set_lib::set_int_range(
            0,
            n * m,
        ).contains(v) by {
            let k = choose|k: u128| all.contains(k) && v == f(k);
            assert(key_in(p, k)) by {
                if k != key {
                    assert(seen.dom().contains(k));
                    assert(seen[k] == 0 || seen[k] == 2);
                }
            }
            let ka = (k as int) / 0x1_0000_0000_0000_0000;
            let kb = (k as int) % 0x1_0000_0000_0000_0000;
            assert(0 <= ka * m + kb < n * m) by (nonlinear_arith)
                requires
                    0 <= ka < n,
                    0 <= kb < m,
            ;
        }
    }
    vstd::set_lib::lemma_len_subset(image, vstd::set_lib::set_int_range(0, n * m));
}

/// A record that has grown has no more room than before.
pub proof fn lemma_room_shrinks(seen: Seen, after: Seen, total: Scope)
    requires
        seen.dom().finite(),
        after.dom().finite(),
        seen.dom().subset_of(after.dom()),
    ensures
        spec_room(after, total) <= spec_room(seen, total),
{
    vstd::set_lib::lemma_len_subset(seen.dom(), after.dom());
}

/// The objects that two handles name are alike if the handles are.
pub proof fn lemma_alike(p: Pairing, a: int, b: int)
    requires
        paired(p),
        like(p.h, p.g, p.wo, p.ro, Value::Ref(a), Value::Ref(b)),
    ensures
        0 <= a < p.h.len(),
        0 <= b < p.g.len(),
        alike(p, p.h[a], p.g[b]),
        node_numeric(p.h[a]),
        key_in(p, spec_pair_key(a, b)),
        p.h.len() * p.g.len() == spec_scope(p).total,
{
    reveal(paired);
    lemma_pair_key(a, b);
    if !(p.h[a] is Extended) {
        lemma_find(p.wo, a);
        let k = spec_find(p.wo, a)->Some_0;
        assert(p.wo[k] == a);
        assert(node_numeric(p.h[p.wo[k]]));
    }
    let n = p.h.len() as int;
    let m = p.g.len() as int;
    assert(0 <= n * m < 0x1_0000_0000_0000_0000_0000_0000_0000_0000) by (nonlinear_arith)
        requires
            0 <= n < 0x1_0000_0000_0000_0000,
            0 <= m < 0x1_0000_0000_0000_0000,
    ;
}

/// Two values that are alike are found equal.
pub proof fn lemma_any_same(p: Pairing, v: Value, w: Value, seen: Seen)
    requires
        paired(p),
        seen_ok(p, seen),
        like(p.h, p.g, p.wo, p.ro, v, w),
    ensures
        agreed(p, seen, ord_any(p.h, p.g, v, w, seen, spec_scope(p))),
    decreases spec_room(seen, spec_scope(p)), 0int, 0int,
{
    match v {
        Value::Ref(a) => {
            let b = w->Ref_0;
            lemma_alike(p, a, b);
            let key = spec_pair_key(a, b);
            if seen.dom().contains(key) {
                assert(seen[key] == 0 || seen[key] == 2);
            } else {
                lemma_room(p, seen, key);
                let seen1 = seen.insert(key, 0u8);
                assert(seen_ok(p, seen1)) by {
                    assert forall|k: u128| seen1.dom().contains(k) implies (#[trigger] seen1[k]
                        == 0 || seen1[k] == 2) && key_in(p, k) by {
                        if k != key {
                            assert(seen.dom().contains(k));
                            assert(seen[k] == 0 || seen[k] == 2);
                        }
                    }
                }
                lemma_ref_same(p, p.h[a], p.g[b], seen1);
                let inner = ord_ref(p.h, p.g, p.h[a], p.g[b], seen1, spec_scope(p));
                let seen2 = inner.1.insert(key, 2u8);
                assert(seen_ok(p, seen2)) by {
                    assert forall|k: u128| seen2.dom().contains(k) implies (#[trigger] seen2[k]
                        == 0 || seen2[k] == 2) && key_in(p, k) by {
                        if k != key {
                            assert(inner.1.dom().contains(k));
                            assert(inner.1[k] == 0 || inner.1[k] == 2);
                        }
                    }
                }
                assert(seen.dom().subset_of(seen2.dom()));
            }
        },
        Value::Symbol(s) => {
            lemma_ord_bytes_same(s);
        },
        _ => {},
    }
}

/// Two objects that are alike are found equal.
pub proof fn lemma_ref_same(p: Pairing, n: Node, m: Node, seen: Seen)
    requires
        paired(p),
        seen_ok(p, seen),
        alike(p, n, m),
        node_numeric(n),
    ensures
        agreed(p, seen, ord_ref(p.h, p.g, n, m, seen, spec_scope(p))),
    decreases spec_room(seen, spec_scope(p)), 4int, 0int,
{
    assert(spec_ordinal(n) == spec_ordinal(m));
    lemma_same_same(p, n, m, seen);
}

/// Two objects of one kind that are alike are found equal.
pub proof fn lemma_same_same(p: Pairing, n: Node, m: Node, seen: Seen)
    requires
        paired(p),
        seen_ok(p, seen),
        alike(p, n, m),
        node_numeric(n),
    ensures
        agreed(p, seen, ord_same(p.h, p.g, n, m, seen, spec_scope(p))),
    decreases spec_room(seen, spec_scope(p)), 3int, 1int,
{
    match n {
        Node::Array(x) => {
            lemma_items_same(p, x, m->Array_0, 0, seen);
        },
        Node::BigInt { negative, magnitude } => {},
        Node::ClassModuleRef(x) => {
            lemma_ord_bytes_same(vstd::utf8::encode_utf8(x));
        },
        Node::ClassRef(x) => {
            lemma_ord_bytes_same(vstd::utf8::encode_utf8(x));
        },
        Node::Data { name, data } => {
            lemma_symbol_any_same(p, name, data, m->Data_data, seen);
        },
        Node::Extended { module, object } => {
            lemma_symbol_any_same(p, module, object, m->Extended_object, seen);
        },
        Node::Float(x) => {},
        Node::Hash { entries, default } => {
            lemma_hash_same(p, entries, default, m->Hash_entries, m->Hash_default, seen);
        },
        Node::ModuleRef(x) => {
            lemma_ord_bytes_same(vstd::utf8::encode_utf8(x));
        },
        Node::Object { name, fields } => {
            lemma_object_same(p, name, fields, m->Object_fields, seen);
        },
        Node::Regex { content, flags } => {
            lemma_ord_bytes_same(vstd::utf8::encode_utf8(content));
        },
        Node::RegexI { content, flags, metadata } => {
            lemma_ord_bytes_same(content);
            lemma_fields_same(p, metadata, m->RegexI_metadata, seen);
        },
        Node::Str(x) => {
            lemma_ord_bytes_same(vstd::utf8::encode_utf8(x));
        },
        Node::StrI { content, metadata } => {
            lemma_ord_bytes_same(content);
            lemma_fields_same(p, metadata, m->StrI_metadata, seen);
        },
        Node::Struct { name, fields } => {
            lemma_object_same(p, name, fields, m->Struct_fields, seen);
        },
        Node::UserClass { name, data } => {
            lemma_symbol_any_same(p, name, data, m->UserClass_data, seen);
        },
        Node::UserData { name, data } => {
            lemma_ord_bytes_same(name);
            lemma_ord_bytes_same(data);
        },
        Node::UserMarshal { name, data } => {
            lemma_symbol_any_same(p, name, data, m->UserMarshal_data, seen);
        },
    }
}

/// A name with a value, and the same name with a value that is like it, are found
/// equal.
pub proof fn lemma_symbol_any_same(p: Pairing, name: Seq<u8>, v: Value, w: Value, seen: Seen)
    requires
        paired(p),
        seen_ok(p, seen),
        like(p.h, p.g, p.wo, p.ro, v, w),
    ensures
        agreed(p, seen, ord_symbol_any(p.h, p.g, name, v, name, w, seen, spec_scope(p))),
    decreases spec_room(seen, spec_scope(p)), 1int, 0int,
{
    lemma_ord_bytes_same(name);
    lemma_any_same(p, v, w, seen);
}

/// Two sequences of values that are alike are found equal.
pub proof fn lemma_items_same(p: Pairing, x: Seq<Value>, y: Seq<Value>, i: int, seen: Seen)
    requires
        paired(p),
        seen_ok(p, seen),
        like_items(p.h, p.g, p.wo, p.ro, x, y),
        0 <= i,
    ensures
        agreed(p, seen, ord_items(p.h, p.g, x, y, i, seen, spec_scope(p))),
    decreases spec_room(seen, spec_scope(p)), 1int, x.len() - i,
{
    if i < x.len() {
        lemma_any_same(p, x[i], y[i], seen);
        let a = ord_any(p.h, p.g, x[i], y[i], seen, spec_scope(p));
        lemma_room_shrinks(seen, a.1, spec_scope(p));
        lemma_items_same(p, x, y, i + 1, a.1);
    }
}

/// Two lists of fields that are alike are found equal, field by field.
pub proof fn lemma_fields_from_same(p: Pairing, x: Seq<(Seq<u8>, Value)>, y: Seq<(Seq<u8>, Value)>, i: int, seen: Seen)
    requires
        paired(p),
        seen_ok(p, seen),
        like_fields(p.h, p.g, p.wo, p.ro, x, y),
        0 <= i,
    ensures
        agreed(p, seen, ord_fields_from(p.h, p.g, x, y, i, seen, spec_scope(p))),
    decreases spec_room(seen, spec_scope(p)), 1int, x.len() - i,
{
    if i < x.len() {
        assert(x[i].0 == y[i].0);
        lemma_ord_bytes_same(x[i].0);
        lemma_any_same(p, x[i].1, y[i].1, seen);
        let a = ord_any(p.h, p.g, x[i].1, y[i].1, seen, spec_scope(p));
        lemma_room_shrinks(seen, a.1, spec_scope(p));
        lemma_fields_from_same(p, x, y, i + 1, a.1);
    }
}

/// Two lists of fields that are alike are found equal.
pub proof fn lemma_fields_same(p: Pairing, x: Seq<(Seq<u8>, Value)>, y: Seq<(Seq<u8>, Value)>, seen: Seen)
    requires
        paired(p),
        seen_ok(p, seen),
        like_fields(p.h, p.g, p.wo, p.ro, x, y),
    ensures
        agreed(p, seen, ord_fields(p.h, p.g, x, y, seen, spec_scope(p))),
    decreases spec_room(seen, spec_scope(p)), 2int, 0int,
{
    lemma_fields_from_same(p, x, y, 0, seen);
}

/// Two objects of one class with fields that are alike are found equal.
pub proof fn lemma_object_same(p: Pairing, name: Seq<u8>, x: Seq<(Seq<u8>, Value)>, y: Seq<(Seq<u8>, Value)>, seen: Seen)
    requires
        paired(p),
        seen_ok(p, seen),
        like_fields(p.h, p.g, p.wo, p.ro, x, y),
    ensures
        agreed(p, seen, ord_object(p.h, p.g, name, x, name, y, seen, spec_scope(p))),
    decreases spec_room(seen, spec_scope(p)), 3int, 0int,
{
    lemma_ord_bytes_same(name);
    lemma_fields_same(p, x, y, seen);
}

/// The entries of two hashes that are alike are found equal.
pub proof fn lemma_entries_same(p: Pairing, x: Seq<(Value, Value)>, y: Seq<(Value, Value)>, i: int, seen: Seen)
    requires
        paired(p),
        seen_ok(p, seen),
        like_entries(p.h, p.g, p.wo, p.ro, x, y),
        0 <= i,
    ensures
        agreed(p, seen, ord_entries(p.h, p.g, x, y, i, seen, spec_scope(p))),
    decreases spec_room(seen, spec_scope(p)), 1int, x.len() - i,
{
    if i < x.len() {
        assert(like(p.h, p.g, p.wo, p.ro, x[i].0, y[i].0));
        lemma_any_same(p, x[i].0, y[i].0, seen);
        let k = ord_any(p.h, p.g, x[i].0, y[i].0, seen, spec_scope(p));
        lemma_room_shrinks(seen, k.1, spec_scope(p));
        lemma_any_same(p, x[i].1, y[i].1, k.1);
        let v = ord_any(p.h, p.g, x[i].1, y[i].1, k.1, spec_scope(p));
        lemma_room_shrinks(k.1, v.1, spec_scope(p));
        lemma_room_shrinks(seen, v.1, spec_scope(p));
        lemma_entries_same(p, x, y, i + 1, v.1);
    }
}

/// Two hashes that are alike are found equal.
pub proof fn lemma_hash_same(p: Pairing, x: Seq<(Value, Value)>, xd: Option<Value>, y: Seq<(Value, Value)>, yd: Option<Value>, seen: Seen)
    requires
        paired(p),
        seen_ok(p, seen),
        like_entries(p.h, p.g, p.wo, p.ro, x, y),
        match xd {
            Some(d) => yd is Some && like(p.h, p.g, p.wo, p.ro, d, yd->Some_0),
            None => yd is None,
        },
    ensures
        agreed(p, seen, ord_hash(p.h, p.g, x, xd, y, yd, seen, spec_scope(p))),
    decreases spec_room(seen, spec_scope(p)), 2int, 0int,
{
    lemma_entries_same(p, x, y, 0, seen);
    let e = ord_entries(p.h, p.g, x, y, 0, seen, spec_scope(p));
    lemma_room_shrinks(seen, e.1, spec_scope(p));
    match xd {
        Some(d) => {
            lemma_any_same(p, d, yd->Some_0, e.1);
        },
        None => {},
    }
}

/// What is like a value from the left is like it from the right: if `w` of
/// the graph `g` is like `v` of the graph `h`, then `v` is like `w`, with
/// the two tables in each other's place.
pub proof fn lemma_like_flip(p: Pairing, v: Value, w: Value)
    requires
        paired(p),
        heap_ok(p.g),
        p.ro.no_duplicates(),
        forall|k: int| 0 <= k < p.ro.len() ==> !(p.g[#[trigger] p.ro[k]] is Extended),
        like(p.h, p.g, p.wo, p.ro, v, w),
    ensures
        like(p.g, p.h, p.ro, p.wo, w, v),
    decreases crate::emit::spec_level(p.h, v),
{
    match v {
        Value::Ref(id) => {
            reveal(paired);
            let jd = w->Ref_0;
            match p.h[id] {
                Node::Extended { module, object } => {
                    assert(node_ok(p.g[jd], p.g.len() as int, jd));
                    lemma_like_flip(p, object, p.g[jd]->Extended_object);
                },
                _ => {
                    lemma_find(p.wo, id);
                    let k = spec_find(p.wo, id)->Some_0;
                    lemma_find(p.ro, jd);
                    assert(p.ro[k] == jd);
                    assert(!(p.g[p.ro[k]] is Extended));
                    match spec_find(p.ro, jd) {
                        Some(i) => {
                            assert(i == k);
                        },
                        None => {},
                    }
                },
            }
        },
        _ => {},
    }
}

/// Objects that are alike from the left are alike from the right.
pub proof fn lemma_like_node_flip(p: Pairing, n: Node, m: Node)
    requires
        paired(p),
        heap_ok(p.g),
        p.ro.no_duplicates(),
        forall|k: int| 0 <= k < p.ro.len() ==> !(p.g[#[trigger] p.ro[k]] is Extended),
        like_node(p.h, p.g, p.wo, p.ro, n, m),
    ensures
        like_node(p.g, p.h, p.ro, p.wo, m, n),
{
    match n {
        Node::Array(x) => {
            let y = m->Array_0;
            assert forall|i: int| 0 <= i < y.len() implies like(
                p.g,
                p.h,
                p.ro,
                p.wo,
                #[trigger] y[i],
                x[i],
            ) by {
                assert(like(p.h, p.g, p.wo, p.ro, x[i], y[i]));
                lemma_like_flip(p, x[i], y[i]);
            }
        },
        Node::StrI { content, metadata } => {
            lemma_like_fields_flip(p, metadata, m->StrI_metadata);
        },
        Node::RegexI { content, flags, metadata } => {
            lemma_like_fields_flip(p, metadata, m->RegexI_metadata);
        },
        Node::Hash { entries, default } => {
            let y = m->Hash_entries;
            assert forall|i: int| 0 <= i < y.len() implies like(
                p.g,
                p.h,
                p.ro,
                p.wo,
                (#[trigger] y[i]).0,
                entries[i].0,
            ) && like(p.g, p.h, p.ro, p.wo, y[i].1, entries[i].1) by {
                assert(like(p.h, p.g, p.wo, p.ro, entries[i].0, y[i].0));
                lemma_like_flip(p, entries[i].0, y[i].0);
                lemma_like_flip(p, entries[i].1, y[i].1);
            }
            match default {
                Some(d) => {
                    lemma_like_flip(p, d, m->Hash_default->Some_0);
                },
                None => {},
            }
        },
        Node::Struct { name, fields } => {
            lemma_like_fields_flip(p, fields, m->Struct_fields);
        },
        Node::Object { name, fields } => {
            lemma_like_fields_flip(p, fields, m->Object_fields);
        },
        Node::Data { name, data } => {
            lemma_like_flip(p, data, m->Data_data);
        },
        Node::UserClass { name, data } => {
            lemma_like_flip(p, data, m->UserClass_data);
        },
        Node::UserMarshal { name, data } => {
            lemma_like_flip(p, data, m->UserMarshal_data);
        },
        _ => {},
    }
}

/// Fields that are alike from the left are alike from the right.
pub proof fn lemma_like_fields_flip(
    p: Pairing,
    x: Seq<(Seq<u8>, Value)>,
    y: Seq<(Seq<u8>, Value)>,
)
    requires
        paired(p),
        heap_ok(p.g),
        p.ro.no_duplicates(),
        forall|k: int| 0 <= k < p.ro.len() ==> !(p.g[#[trigger] p.ro[k]] is Extended),
        like_fields(p.h, p.g, p.wo, p.ro, x, y),
    ensures
        like_fields(p.g, p.h, p.ro, p.wo, y, x),
{
    assert forall|i: int| 0 <= i < y.len() implies (#[trigger] y[i]).0 == x[i].0 && like(
        p.g,
        p.h,
        p.ro,
        p.wo,
        y[i].1,
        x[i].1,
    ) by {
        assert(x[i].0 == y[i].0);
        lemma_like_flip(p, x[i].1, y[i].1);
    }
}

/// Two graphs that are paired are paired the other way round.
pub proof fn lemma_paired_flip(p: Pairing)
    requires
        paired(p),
        heap_ok(p.g),
        p.ro.no_duplicates(),
        forall|k: int| 0 <= k < p.ro.len() ==> !(p.g[#[trigger] p.ro[k]] is Extended),
    ensures
        paired(Pairing { h: p.g, g: p.h, wo: p.ro, ro: p.wo }),
{
    let q = Pairing { h: p.g, g: p.h, wo: p.ro, ro: p.wo };
    assert forall|k: int| 0 <= k < q.wo.len() implies 0 <= #[trigger] q.wo[k] < q.h.len() && 0
        <= q.ro[k] < q.g.len() && node_numeric(q.h[q.wo[k]]) && like_node(
        q.h,
        q.g,
        q.wo,
        q.ro,
        q.h[q.wo[k]],
        q.g[q.ro[k]],
    ) by {
        reveal(paired);
        assert(0 <= p.wo[k] < p.h.len());
        lemma_like_node_flip(p, p.h[p.wo[k]], p.g[p.ro[k]]);
    }
    reveal(paired);
}

/// The two graphs of a round trip, paired through the tables of the writer
/// and of the reader.
pub open spec fn spec_round(h: Seq<Node>, v: Value, rest: Seq<u8>, lax: bool) -> Pairing {
    Pairing {
        h,
        g: spec_read_back(h, v, rest, lax)->Ok_0.2.heap,
        wo: spec_written(h, v).objects,
        ro: spec_read_back(h, v, rest, lax)->Ok_0.2.objects,
    }
}

/// The graphs of a round trip are paired.
proof fn lemma_round_paired(h: Seq<Node>, v: Value, rest: Seq<u8>, lax: bool)
    requires
        spec_encodable(h, v),
        forall|i: int| 0 <= i < h.len() ==> node_numeric(#[trigger] h[i]),
        spec_read_back(h, v, rest, lax) matches Ok(t) ==> t.2.heap.len() < 0x1_0000_0000_0000_0000,
    ensures
        spec_read_back(h, v, rest, lax) is Ok,
        paired(spec_round(h, v, rest, lax)),
        like(
            h,
            spec_round(h, v, rest, lax).g,
            spec_round(h, v, rest, lax).wo,
            spec_round(h, v, rest, lax).ro,
            v,
            spec_read_back(h, v, rest, lax)->Ok_0.0,
        ),
        spec_round(h, v, rest, lax).ro.no_duplicates(),
        forall|k: int|
            0 <= k < spec_round(h, v, rest, lax).ro.len() ==> !(spec_round(
                h,
                v,
                rest,
                lax,
            ).g[#[trigger] spec_round(h, v, rest, lax).ro[k]] is Extended),
{
    lemma_roundtrip(h, v, rest, lax);
    lemma_tables_agree(h, v, rest, lax);
    lemma_payloads_bounded(h, v);
    let p = spec_round(h, v, rest, lax);
    assert forall|k: int| 0 <= k < p.wo.len() implies 0 <= #[trigger] p.wo[k] < p.h.len() && 0
        <= p.ro[k] < p.g.len() && node_numeric(p.h[p.wo[k]]) && like_node(
        p.h,
        p.g,
        p.wo,
        p.ro,
        p.h[p.wo[k]],
        p.g[p.ro[k]],
    ) by {
        assert(0 <= p.ro[k] < p.g.len());
    }
    reveal(paired);
}

/// Decoding gives back a value that is deep-equal to the value that was
/// encoded. For every well-formed graph that the format can carry and that
/// holds no float that is no number, the value that decoding gives of the
/// bytes of an encoded value is equal, in the deep order of two graphs, to
/// the encoded value: compared either way round. The decoded graph is
/// taken to be of a size that a machine can hold, and to be well-formed, as
/// every graph that the reader returns is.
pub proof fn lemma_roundtrip_deep_eq(h: Seq<Node>, v: Value, rest: Seq<u8>, lax: bool)
    requires
        spec_encodable(h, v),
        forall|i: int| 0 <= i < h.len() ==> node_numeric(#[trigger] h[i]),
        spec_read_back(h, v, rest, lax) matches Ok(t) ==> t.2.heap.len() < 0x1_0000_0000_0000_0000
            && heap_ok(t.2.heap),
    ensures
        spec_read_back(h, v, rest, lax) is Ok,
        spec_deep_order(
            h,
            v,
            spec_read_back(h, v, rest, lax)->Ok_0.2.heap,
            spec_read_back(h, v, rest, lax)->Ok_0.0,
        ) == Rank::Equal,
        spec_deep_order(
            spec_read_back(h, v, rest, lax)->Ok_0.2.heap,
            spec_read_back(h, v, rest, lax)->Ok_0.0,
            h,
            v,
        ) == Rank::Equal,
{
    lemma_round_paired(h, v, rest, lax);
    let p = spec_round(h, v, rest, lax);
    let w = spec_read_back(h, v, rest, lax)->Ok_0.0;
    let empty = Map::<u128, u8>::empty();
    assert(seen_ok(p, empty));
    lemma_any_same(p, v, w, empty);
    let q = Pairing { h: p.g, g: p.h, wo: p.ro, ro: p.wo };
    lemma_paired_flip(p);
    lemma_like_flip(p, v, w);
    assert(seen_ok(q, empty));
    lemma_any_same(q, w, v, empty);
    assert(spec_scope(q).total == spec_scope(p).total) by (nonlinear_arith)
        requires
            spec_scope(q).total == (p.g.len() * p.h.len()) as u128,
            spec_scope(p).total == (p.h.len() * p.g.len()) as u128,
    ;
}

} // verus!
