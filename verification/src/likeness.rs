//! When a decoded graph is like the graph that was encoded.
//!
//! The two graphs number their objects differently, so they are compared
//! through the two object tables: the `k`-th object that the writer wrote
//! in full corresponds to the `k`-th object that the reader made. An
//! extended object takes no place in the tables; it corresponds to an
//! extended object of the same module that wraps a corresponding object.

use vstd::prelude::*;
use crate::bigint::spec_padded;
use crate::emit::{spec_level, spec_utf8, WriteState};
use crate::framing::fits32;
use crate::node::Node;
use crate::ordered::{lemma_find, spec_find};
use crate::tables::{tables_grow, tables_ok};
use crate::value::Value;
use crate::wire::{spec_is_utf8, ReadState};

verus! {

/// The value `w` of the decoded graph `g` is like the value `v` of the
/// encoded graph `h`: the same scalar, or a handle on the object that
/// corresponds to the object that `v` names. `wo` is the object table of
/// the writer and `ro` that of the reader.
pub open spec fn like(
    h: Seq<Node>,
    g: Seq<Node>,
    wo: Seq<int>,
    ro: Seq<int>,
    v: Value,
    w: Value,
) -> bool
    decreases spec_level(h, v),
{
    match v {
        Value::Ref(id) => {
            &&& w is Ref
            &&& 0 <= id < h.len()
            &&& 0 <= w->Ref_0 < g.len()
            &&& match h[id] {
                Node::Extended { module, object } => {
                    &&& g[w->Ref_0] is Extended
                    &&& g[w->Ref_0]->Extended_module == module
                    &&& spec_level(h, object) <= id
                    &&& like(h, g, wo, ro, object, g[w->Ref_0]->Extended_object)
                },
                _ => match spec_find(wo, id) {
                    Some(k) => k < ro.len() && ro[k] == w->Ref_0,
                    None => false,
                },
            }
        },
        _ => w == v,
    }
}

/// Two sequences of values are alike, value by value.
pub open spec fn like_items(
    h: Seq<Node>,
    g: Seq<Node>,
    wo: Seq<int>,
    ro: Seq<int>,
    x: Seq<Value>,
    y: Seq<Value>,
) -> bool {
    &&& x.len() == y.len()
    &&& forall|i: int| 0 <= i < x.len() ==> like(h, g, wo, ro, #[trigger] x[i], y[i])
}

/// Two lists of fields are alike: the same names, with values alike.
pub open spec fn like_fields(
    h: Seq<Node>,
    g: Seq<Node>,
    wo: Seq<int>,
    ro: Seq<int>,
    x: Seq<(Seq<u8>, Value)>,
    y: Seq<(Seq<u8>, Value)>,
) -> bool {
    &&& x.len() == y.len()
    &&& forall|i: int|
        0 <= i < x.len() ==> (#[trigger] x[i]).0 == y[i].0 && like(h, g, wo, ro, x[i].1, y[i].1)
}

/// Two lists of entries are alike: keys alike and values alike.
pub open spec fn like_entries(
    h: Seq<Node>,
    g: Seq<Node>,
    wo: Seq<int>,
    ro: Seq<int>,
    x: Seq<(Value, Value)>,
    y: Seq<(Value, Value)>,
) -> bool {
    &&& x.len() == y.len()
    &&& forall|i: int|
        0 <= i < x.len() ==> like(h, g, wo, ro, (#[trigger] x[i]).0, y[i].0) && like(
            h,
            g,
            wo,
            ro,
            x[i].1,
            y[i].1,
        )
}

/// The object `m` of the decoded graph is like the object `n` of the
/// encoded graph: of the same kind, with the same bytes, text, names and
/// flags, and with values alike.
pub open spec fn like_node(
    h: Seq<Node>,
    g: Seq<Node>,
    wo: Seq<int>,
    ro: Seq<int>,
    n: Node,
    m: Node,
) -> bool {
    match n {
        Node::Array(items) => m is Array && like_items(h, g, wo, ro, items, m->Array_0),
        Node::StrI { content, metadata } => {
            &&& m is StrI
            &&& m->StrI_content == content
            &&& like_fields(h, g, wo, ro, metadata, m->StrI_metadata)
        },
        Node::RegexI { content, flags, metadata } => {
            &&& m is RegexI
            &&& m->RegexI_content == content
            &&& m->RegexI_flags == flags
            &&& like_fields(h, g, wo, ro, metadata, m->RegexI_metadata)
        },
        Node::Hash { entries, default } => {
            &&& m is Hash
            &&& like_entries(h, g, wo, ro, entries, m->Hash_entries)
            &&& match default {
                Some(d) => m->Hash_default is Some && like(
                    h,
                    g,
                    wo,
                    ro,
                    d,
                    m->Hash_default->Some_0,
                ),
                None => m->Hash_default is None,
            }
        },
        Node::Struct { name, fields } => {
            &&& m is Struct
            &&& m->Struct_name == name
            &&& like_fields(h, g, wo, ro, fields, m->Struct_fields)
        },
        Node::Object { name, fields } => {
            &&& m is Object
            &&& m->Object_name == name
            &&& like_fields(h, g, wo, ro, fields, m->Object_fields)
        },
        Node::Data { name, data } => {
            &&& m is Data
            &&& m->Data_name == name
            &&& like(h, g, wo, ro, data, m->Data_data)
        },
        Node::UserClass { name, data } => {
            &&& m is UserClass
            &&& m->UserClass_name == name
            &&& like(h, g, wo, ro, data, m->UserClass_data)
        },
        Node::UserMarshal { name, data } => {
            &&& m is UserMarshal
            &&& m->UserMarshal_name == name
            &&& like(h, g, wo, ro, data, m->UserMarshal_data)
        },
        Node::Extended { module, object } => false,
        _ => m == n,
    }
}

/// The sequence `b` starts with the sequence `a`.
pub open spec fn starts<T>(a: Seq<T>, b: Seq<T>) -> bool {
    &&& a.len() <= b.len()
    &&& forall|k: int| 0 <= k < a.len() ==> #[trigger] b[k] == a[k]
}

/// The graph `g2` keeps the extended objects of the graph `g`, and has made
/// none of the other objects of `g` an extended object.
pub open spec fn keeps(g: Seq<Node>, g2: Seq<Node>) -> bool {
    &&& g.len() <= g2.len()
    &&& forall|j: int|
        0 <= j < g.len() ==> (if (#[trigger] g[j]) is Extended {
            g2[j] == g[j]
        } else {
            !(g2[j] is Extended)
        })
}

/// What is found in a sequence is found in the same place in a sequence
/// that starts with it.
pub proof fn lemma_find_starts<T>(a: Seq<T>, b: Seq<T>, x: T)
    requires
        starts(a, b),
        spec_find(a, x) is Some,
    ensures
        spec_find(b, x) == spec_find(a, x),
{
    lemma_find(a, x);
    lemma_find(b, x);
    let i = spec_find(a, x)->Some_0;
    assert(b[i] == a[i]);
    match spec_find(b, x) {
        Some(j) => {
            if j < i {
                assert(b[j] == a[j]);
            }
        },
        None => {},
    }
}

/// Values that are alike stay alike when the tables grow and the decoded
/// graph keeps its extended objects.
pub proof fn lemma_like_keeps(
    h: Seq<Node>,
    g: Seq<Node>,
    wo: Seq<int>,
    ro: Seq<int>,
    g2: Seq<Node>,
    wo2: Seq<int>,
    ro2: Seq<int>,
    v: Value,
    w: Value,
)
    requires
        like(h, g, wo, ro, v, w),
        keeps(g, g2),
        starts(wo, wo2),
        starts(ro, ro2),
    ensures
        like(h, g2, wo2, ro2, v, w),
    decreases spec_level(h, v),
{
    match v {
        Value::Ref(id) => {
            let jd = w->Ref_0;
            assert(g[jd] is Extended ==> g2[jd] == g[jd]);
            match h[id] {
                Node::Extended { module, object } => {
                    lemma_like_keeps(h, g, wo, ro, g2, wo2, ro2, object, g[jd]->Extended_object);
                },
                _ => {
                    lemma_find_starts(wo, wo2, id);
                    lemma_find(wo, id);
                    let k = spec_find(wo, id)->Some_0;
                    assert(ro2[k] == ro[k]);
                },
            }
        },
        _ => {},
    }
}

/// Sequences of values that are alike stay alike.
pub proof fn lemma_like_items_keeps(
    h: Seq<Node>,
    g: Seq<Node>,
    wo: Seq<int>,
    ro: Seq<int>,
    g2: Seq<Node>,
    wo2: Seq<int>,
    ro2: Seq<int>,
    x: Seq<Value>,
    y: Seq<Value>,
)
    requires
        like_items(h, g, wo, ro, x, y),
        keeps(g, g2),
        starts(wo, wo2),
        starts(ro, ro2),
    ensures
        like_items(h, g2, wo2, ro2, x, y),
{
    assert forall|i: int| 0 <= i < x.len() implies like(h, g2, wo2, ro2, #[trigger] x[i], y[i]) by {
        lemma_like_keeps(h, g, wo, ro, g2, wo2, ro2, x[i], y[i]);
    }
}

/// Lists of fields that are alike stay alike.
pub proof fn lemma_like_fields_keeps(
    h: Seq<Node>,
    g: Seq<Node>,
    wo: Seq<int>,
    ro: Seq<int>,
    g2: Seq<Node>,
    wo2: Seq<int>,
    ro2: Seq<int>,
    x: Seq<(Seq<u8>, Value)>,
    y: Seq<(Seq<u8>, Value)>,
)
    requires
        like_fields(h, g, wo, ro, x, y),
        keeps(g, g2),
        starts(wo, wo2),
        starts(ro, ro2),
    ensures
        like_fields(h, g2, wo2, ro2, x, y),
{
    assert forall|i: int| 0 <= i < x.len() implies (#[trigger] x[i]).0 == y[i].0 && like(
        h,
        g2,
        wo2,
        ro2,
        x[i].1,
        y[i].1,
    ) by {
        lemma_like_keeps(h, g, wo, ro, g2, wo2, ro2, x[i].1, y[i].1);
    }
}

/// Lists of entries that are alike stay alike.
pub proof fn lemma_like_entries_keeps(
    h: Seq<Node>,
    g: Seq<Node>,
    wo: Seq<int>,
    ro: Seq<int>,
    g2: Seq<Node>,
    wo2: Seq<int>,
    ro2: Seq<int>,
    x: Seq<(Value, Value)>,
    y: Seq<(Value, Value)>,
)
    requires
        like_entries(h, g, wo, ro, x, y),
        keeps(g, g2),
        starts(wo, wo2),
        starts(ro, ro2),
    ensures
        like_entries(h, g2, wo2, ro2, x, y),
{
    assert forall|i: int| 0 <= i < x.len() implies like(
        h,
        g2,
        wo2,
        ro2,
        (#[trigger] x[i]).0,
        y[i].0,
    ) && like(h, g2, wo2, ro2, x[i].1, y[i].1) by {
        lemma_like_keeps(h, g, wo, ro, g2, wo2, ro2, x[i].0, y[i].0);
        lemma_like_keeps(h, g, wo, ro, g2, wo2, ro2, x[i].1, y[i].1);
    }
}

/// Objects that are alike stay alike when the tables grow and the decoded
/// graph keeps its extended objects.
pub proof fn lemma_like_node_keeps(
    h: Seq<Node>,
    g: Seq<Node>,
    wo: Seq<int>,
    ro: Seq<int>,
    g2: Seq<Node>,
    wo2: Seq<int>,
    ro2: Seq<int>,
    n: Node,
    m: Node,
)
    requires
        like_node(h, g, wo, ro, n, m),
        keeps(g, g2),
        starts(wo, wo2),
        starts(ro, ro2),
    ensures
        like_node(h, g2, wo2, ro2, n, m),
{
    match n {
        Node::Array(items) => {
            lemma_like_items_keeps(h, g, wo, ro, g2, wo2, ro2, items, m->Array_0);
        },
        Node::StrI { content, metadata } => {
            lemma_like_fields_keeps(h, g, wo, ro, g2, wo2, ro2, metadata, m->StrI_metadata);
        },
        Node::RegexI { content, flags, metadata } => {
            lemma_like_fields_keeps(h, g, wo, ro, g2, wo2, ro2, metadata, m->RegexI_metadata);
        },
        Node::Hash { entries, default } => {
            lemma_like_entries_keeps(h, g, wo, ro, g2, wo2, ro2, entries, m->Hash_entries);
            match default {
                Some(d) => {
                    lemma_like_keeps(h, g, wo, ro, g2, wo2, ro2, d, m->Hash_default->Some_0);
                },
                None => {},
            }
        },
        Node::Struct { name, fields } => {
            lemma_like_fields_keeps(h, g, wo, ro, g2, wo2, ro2, fields, m->Struct_fields);
        },
        Node::Object { name, fields } => {
            lemma_like_fields_keeps(h, g, wo, ro, g2, wo2, ro2, fields, m->Object_fields);
        },
        Node::Data { name, data } => {
            lemma_like_keeps(h, g, wo, ro, g2, wo2, ro2, data, m->Data_data);
        },
        Node::UserClass { name, data } => {
            lemma_like_keeps(h, g, wo, ro, g2, wo2, ro2, data, m->UserClass_data);
        },
        Node::UserMarshal { name, data } => {
            lemma_like_keeps(h, g, wo, ro, g2, wo2, ro2, data, m->UserMarshal_data);
        },
        _ => {},
    }
}

/// A value that the format can carry: a symbol of a length that fits.
pub open spec fn value_plain(v: Value) -> bool {
    v matches Value::Symbol(s) ==> fits32(s.len() as int)
}

/// Values that the format can carry.
pub open spec fn values_plain(items: Seq<Value>) -> bool {
    &&& fits32(items.len() as int)
    &&& forall|i: int| 0 <= i < items.len() ==> value_plain(#[trigger] items[i])
}

/// Fields that the format can carry.
pub open spec fn fields_plain(fields: Seq<(Seq<u8>, Value)>) -> bool {
    &&& fits32(fields.len() as int)
    &&& forall|i: int|
        0 <= i < fields.len() ==> fits32((#[trigger] fields[i]).0.len() as int) && value_plain(
            fields[i].1,
        )
}

/// Entries that the format can carry.
pub open spec fn entries_plain(entries: Seq<(Value, Value)>) -> bool {
    &&& fits32(entries.len() as int)
    &&& forall|i: int|
        0 <= i < entries.len() ==> value_plain((#[trigger] entries[i]).0) && value_plain(
            entries[i].1,
        )
}

/// An object that the format can carry and give back: every length and
/// count fits 32 bits, the flags of a regex fit one byte, and a string or
/// regex that holds bytes has no field that marks it as UTF-8.
pub open spec fn node_plain(n: Node) -> bool {
    match n {
        Node::Float(text) => fits32(text.len() as int),
        Node::BigInt { negative, magnitude } => fits32(spec_padded(magnitude).len() as int / 2),
        Node::Array(items) => values_plain(items),
        Node::Str(text) => fits32(spec_utf8(text).len() as int),
        Node::StrI { content, metadata } => fits32(content.len() as int) && fields_plain(metadata)
            && !spec_is_utf8(metadata),
        Node::Regex { content, flags } => fits32(spec_utf8(content).len() as int) && flags < 256,
        Node::RegexI { content, flags, metadata } => fits32(content.len() as int) && flags < 256
            && fields_plain(metadata) && !spec_is_utf8(metadata),
        Node::Hash { entries, default } => entries_plain(entries) && (default matches Some(d)
            ==> value_plain(d)),
        Node::Struct { name, fields } => fits32(name.len() as int) && fields_plain(fields),
        Node::Object { name, fields } => fits32(name.len() as int) && fields_plain(fields),
        Node::ClassRef(name) => fits32(spec_utf8(name).len() as int),
        Node::ModuleRef(name) => fits32(spec_utf8(name).len() as int),
        Node::ClassModuleRef(name) => fits32(spec_utf8(name).len() as int),
        Node::Data { name, data } => fits32(name.len() as int) && value_plain(data),
        Node::UserClass { name, data } => fits32(name.len() as int) && value_plain(data),
        Node::UserData { name, data } => fits32(name.len() as int) && fits32(data.len() as int),
        Node::UserMarshal { name, data } => fits32(name.len() as int) && value_plain(data),
        Node::Extended { module, object } => fits32(module.len() as int) && value_plain(object),
    }
}

/// A graph that the format can carry and give back.
pub open spec fn graph_plain(h: Seq<Node>) -> bool {
    &&& fits32(h.len() as int)
    &&& forall|i: int| 0 <= i < h.len() ==> node_plain(#[trigger] h[i])
}

/// The reader has followed the writer: the symbol tables are the same, the
/// object tables have the same length, and each object that the reader has
/// read in full is like the object in the same place of the writer's table.
/// `open` holds the places of the objects whose contents are being read.
#[verifier::opaque]
pub open spec fn tied(h: Seq<Node>, sw: WriteState, sr: ReadState, open: Set<int>) -> bool {
    &&& sr.symbols == sw.symbols
    &&& sr.objects.len() == sw.objects.len()
    &&& tables_ok(h, sw)
    &&& sr.objects.no_duplicates()
    &&& forall|x: int| open.contains(x) ==> 0 <= x < sw.objects.len()
    &&& forall|k: int|
        0 <= k < sr.objects.len() ==> 0 <= #[trigger] sr.objects[k] < sr.heap.len() && !(
        sr.heap[sr.objects[k]] is Extended)
    &&& forall|k: int|
        0 <= k < sr.objects.len() && !open.contains(k) ==> like_node(
            h,
            sr.heap,
            sw.objects,
            sr.objects,
            h[#[trigger] sw.objects[k]],
            sr.heap[sr.objects[k]],
        )
}

/// What a reader that has followed the writer has of it, in short.
pub proof fn lemma_tied_basics(h: Seq<Node>, sw: WriteState, sr: ReadState, open: Set<int>)
    requires
        tied(h, sw, sr, open),
    ensures
        sr.symbols == sw.symbols,
        sr.objects.len() == sw.objects.len(),
        tables_ok(h, sw),
        sr.objects.no_duplicates(),
        forall|k: int|
            0 <= k < sr.objects.len() ==> 0 <= #[trigger] sr.objects[k] < sr.heap.len() && !(
            sr.heap[sr.objects[k]] is Extended),
{
    reveal(tied);
}

/// The state `b` of a reader continues the state `a`: the graph and the
/// object table have what they had, and perhaps more after it.
pub open spec fn continues(a: ReadState, b: ReadState) -> bool {
    &&& starts(a.heap, b.heap)
    &&& starts(a.objects, b.objects)
}

/// A state that continues another keeps its extended objects.
pub proof fn lemma_continues_keeps(a: ReadState, b: ReadState)
    requires
        continues(a, b),
    ensures
        keeps(a.heap, b.heap),
{
    assert forall|j: int| 0 <= j < a.heap.len() implies (if (#[trigger] a.heap[j]) is Extended {
        b.heap[j] == a.heap[j]
    } else {
        !(b.heap[j] is Extended)
    }) by {
        assert(b.heap[j] == a.heap[j]);
    }
}

/// Continuation is transitive.
pub proof fn lemma_continues_trans(a: ReadState, b: ReadState, c: ReadState)
    requires
        continues(a, b),
        continues(b, c),
    ensures
        continues(a, c),
{
    assert forall|k: int| 0 <= k < a.heap.len() implies #[trigger] c.heap[k] == a.heap[k] by {
        assert(b.heap[k] == a.heap[k]);
        assert(c.heap[k] == b.heap[k]);
    }
    assert forall|k: int| 0 <= k < a.objects.len() implies #[trigger] c.objects[k]
        == a.objects[k] by {
        assert(b.objects[k] == a.objects[k]);
        assert(c.objects[k] == b.objects[k]);
    }
}

/// Tables that have grown start with what they were.
pub proof fn lemma_grow_starts(a: WriteState, b: WriteState)
    requires
        tables_grow(a, b),
    ensures
        starts(a.objects, b.objects),
        starts(a.symbols, b.symbols),
{
}

/// Fields that are like fields without the mark of UTF-8 have no such mark.
pub proof fn lemma_like_fields_mark(
    h: Seq<Node>,
    g: Seq<Node>,
    wo: Seq<int>,
    ro: Seq<int>,
    x: Seq<(Seq<u8>, Value)>,
    y: Seq<(Seq<u8>, Value)>,
)
    requires
        like_fields(h, g, wo, ro, x, y),
        !spec_is_utf8(x),
    ensures
        !spec_is_utf8(y),
{
    if spec_is_utf8(y) {
        let i = choose|i: int| 0 <= i < y.len() && #[trigger] y[i] == (seq![69u8], Value::True);
        assert(x[i].0 == y[i].0);
        assert(like(h, g, wo, ro, x[i].1, y[i].1));
        assert(x[i] == (seq![69u8], Value::True));
    }
}

/// Two different values of the encoded graph are like different values of
/// the decoded graph, unless the second names an extended object.
pub proof fn lemma_like_distinct(
    h: Seq<Node>,
    g: Seq<Node>,
    wo: Seq<int>,
    ro: Seq<int>,
    v1: Value,
    w1: Value,
    v2: Value,
    w2: Value,
)
    requires
        like(h, g, wo, ro, v1, w1),
        like(h, g, wo, ro, v2, w2),
        v1 != v2,
        ro.no_duplicates(),
        forall|k: int| 0 <= k < ro.len() ==> 0 <= #[trigger] ro[k] < g.len() && !(g[ro[k]] is Extended),
        !(v2 is Ref && h[v2->Ref_0] is Extended),
    ensures
        w1 != w2,
{
    if v2 is Ref && v1 is Ref {
        let id1 = v1->Ref_0;
        let id2 = v2->Ref_0;
        lemma_find(wo, id2);
        let k2 = spec_find(wo, id2)->Some_0;
        if h[id1] is Extended {
            assert(g[w1->Ref_0] is Extended);
            assert(!(g[ro[k2]] is Extended));
        } else {
            lemma_find(wo, id1);
            let k1 = spec_find(wo, id1)->Some_0;
            assert(k1 != k2);
        }
    }
}

/// A handle that is shared stays shared: whatever is like one and the same
/// handle on an object that is no extended object, is one and the same
/// handle.
pub proof fn lemma_like_shared(
    h: Seq<Node>,
    g: Seq<Node>,
    wo: Seq<int>,
    ro: Seq<int>,
    v: Value,
    w1: Value,
    w2: Value,
)
    requires
        like(h, g, wo, ro, v, w1),
        like(h, g, wo, ro, v, w2),
        v is Ref,
        !(h[v->Ref_0] is Extended),
    ensures
        w1 == w2,
{
}

} // verus!
