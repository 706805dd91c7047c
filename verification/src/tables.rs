//! What holds of the tables of a writer, whatever it writes.

use vstd::prelude::*;
use crate::context::{entries_ok, fields_ok, heap_ok, node_ok, value_ok, values_ok};
use crate::emit::{
    spec_fresh, spec_level, spec_unwritten, spec_write_entries, spec_write_entry,
    spec_write_fields, spec_write_hash, spec_write_items, spec_write_node, spec_write_object,
    spec_write_pairs, spec_write_ref, spec_write_symbol, spec_write_typed_data, WriteState,
};
use crate::node::Node;
use crate::ordered::{lemma_find, spec_find};
use crate::serialize::lemma_distinct_bound;
use crate::value::Value;

verus! {

/// The tables of a writer are in order for the graph `h`: no symbol and no
/// object occurs twice, and every object of the object table is an object
/// of the graph that is not an extended object.
pub open spec fn tables_ok(h: Seq<Node>, st: WriteState) -> bool {
    &&& st.symbols.no_duplicates()
    &&& st.objects.no_duplicates()
    &&& forall|k: int|
        0 <= k < st.objects.len() ==> 0 <= #[trigger] st.objects[k] < h.len() && !(
        h[st.objects[k]] is Extended)
}

/// The tables `b` hold what the tables `a` hold, in the same places, and
/// perhaps more after it.
pub open spec fn tables_grow(a: WriteState, b: WriteState) -> bool {
    &&& a.symbols.len() <= b.symbols.len()
    &&& a.objects.len() <= b.objects.len()
    &&& forall|k: int| 0 <= k < a.symbols.len() ==> a.symbols[k] == #[trigger] b.symbols[k]
    &&& forall|k: int| 0 <= k < a.objects.len() ==> a.objects[k] == #[trigger] b.objects[k]
}

/// Writing a symbol keeps the tables in order, and takes nothing from them.
pub proof fn lemma_symbol_tables(h: Seq<Node>, sym: Seq<u8>, st: WriteState)
    requires
        tables_ok(h, st),
    ensures
        tables_ok(h, spec_write_symbol(sym, st).1),
        tables_grow(st, spec_write_symbol(sym, st).1),
        spec_write_symbol(sym, st).1.objects == st.objects,
{
    lemma_find(st.symbols, sym);
    let after = spec_write_symbol(sym, st).1;
    if spec_find(st.symbols, sym) is None {
        assert forall|i: int, j: int|
            0 <= i < after.symbols.len() && 0 <= j < after.symbols.len() && i
                != j implies after.symbols[i] != after.symbols[j] by {
            if i < st.symbols.len() && j < st.symbols.len() {
                assert(after.symbols[i] == st.symbols[i]);
                assert(after.symbols[j] == st.symbols[j]);
            } else if i < st.symbols.len() {
                assert(after.symbols[i] == st.symbols[i]);
            } else {
                assert(after.symbols[j] == st.symbols[j]);
            }
        }
    }
}

/// Growth of tables is transitive.
pub proof fn lemma_grow_trans(a: WriteState, b: WriteState, c: WriteState)
    requires
        tables_grow(a, b),
        tables_grow(b, c),
    ensures
        tables_grow(a, c),
{
    assert forall|k: int| 0 <= k < a.symbols.len() implies a.symbols[k] == #[trigger] c.symbols[k] by {
        assert(a.symbols[k] == b.symbols[k]);
    }
    assert forall|k: int| 0 <= k < a.objects.len() implies a.objects[k] == #[trigger] c.objects[k] by {
        assert(a.objects[k] == b.objects[k]);
    }
}

/// Writing an entry keeps the tables in order, and takes nothing from them.
pub proof fn lemma_entry_tables(h: Seq<Node>, v: Value, st: WriteState)
    requires
        heap_ok(h),
        value_ok(v, h.len() as int),
        tables_ok(h, st),
    ensures
        tables_ok(h, spec_write_entry(h, v, st).1),
        tables_grow(st, spec_write_entry(h, v, st).1),
    decreases spec_unwritten(h, st), spec_level(h, v), 1int,
{
    match v {
        Value::Symbol(s) => {
            lemma_symbol_tables(h, s, st);
        },
        Value::Ref(id) => {
            lemma_ref_tables(h, id, st);
        },
        _ => {},
    }
}

/// Writing the object at place `id` keeps the tables in order, and takes
/// nothing from them. In the end the tables hold the object, unless it is
/// an extended object.
pub proof fn lemma_ref_tables(h: Seq<Node>, id: int, st: WriteState)
    requires
        heap_ok(h),
        0 <= id < h.len(),
        tables_ok(h, st),
    ensures
        tables_ok(h, spec_write_ref(h, id, st).1),
        tables_grow(st, spec_write_ref(h, id, st).1),
        !(h[id] is Extended) ==> spec_write_ref(h, id, st).1.objects.contains(id),
    decreases spec_unwritten(h, st), id + 1, 0int,
{
    assert(node_ok(h[id], h.len() as int, id));
    match h[id] {
        Node::Extended { module, object } => {
            lemma_symbol_tables(h, module, st);
            let m = spec_write_symbol(module, st);
            assert(spec_level(h, object) <= id);
            lemma_entry_tables(h, object, m.1);
            lemma_grow_trans(st, m.1, spec_write_entry(h, object, m.1).1);
        },
        _ => {
            lemma_find(st.objects, id);
            match spec_find(st.objects, id) {
                Some(k) => {},
                None => {
                    let grown = WriteState { symbols: st.symbols, objects: st.objects.push(id) };
                    lemma_push_tables(h, id, st);
                    lemma_node_tables(h, h[id], grown);
                    lemma_grow_trans(st, grown, spec_write_node(h, h[id], grown).1);
                    let end = spec_write_node(h, h[id], grown).1;
                    assert(end.objects[st.objects.len() as int] == grown.objects[st.objects.len() as int]);
                },
            }
        },
    }
}

/// An object that the object table does not hold can be entered: the table
/// has room, and stays in order.
pub proof fn lemma_push_tables(h: Seq<Node>, id: int, st: WriteState)
    requires
        0 <= id < h.len(),
        !(h[id] is Extended),
        tables_ok(h, st),
        spec_find(st.objects, id) is None,
    ensures
        st.objects.len() < h.len(),
        tables_ok(h, WriteState { symbols: st.symbols, objects: st.objects.push(id) }),
        tables_grow(st, WriteState { symbols: st.symbols, objects: st.objects.push(id) }),
        spec_unwritten(h, WriteState { symbols: st.symbols, objects: st.objects.push(id) })
            < spec_unwritten(h, st),
{
    lemma_find(st.objects, id);
    let grown = st.objects.push(id);
    assert forall|i: int, j: int|
        0 <= i < grown.len() && 0 <= j < grown.len() && i != j implies grown[i] != grown[j] by {
        if i < st.objects.len() {
            assert(grown[i] == st.objects[i]);
        }
        if j < st.objects.len() {
            assert(grown[j] == st.objects[j]);
        }
    }
    assert forall|k: int| 0 <= k < grown.len() implies 0 <= #[trigger] grown[k] < h.len() && !(
    h[grown[k]] is Extended) by {
        if k < st.objects.len() {
            assert(grown[k] == st.objects[k]);
        }
    }
    lemma_distinct_bound(grown, h.len() as int);
}

/// Writing the entries of an array keeps the tables in order.
pub proof fn lemma_items_tables(h: Seq<Node>, items: Seq<Value>, i: int, st: WriteState)
    requires
        heap_ok(h),
        values_ok(items, h.len() as int),
        tables_ok(h, st),
    ensures
        tables_ok(h, spec_write_items(h, items, i, st).1),
        tables_grow(st, spec_write_items(h, items, i, st).1),
    decreases spec_unwritten(h, st), h.len() + 1, items.len() - i,
{
    if 0 <= i < items.len() {
        lemma_entry_tables(h, items[i], st);
        let a = spec_write_entry(h, items[i], st);
        lemma_items_tables(h, items, i + 1, a.1);
        lemma_grow_trans(st, a.1, spec_write_items(h, items, i + 1, a.1).1);
    }
}

/// Writing fields keeps the tables in order.
pub proof fn lemma_fields_tables(
    h: Seq<Node>,
    fields: Seq<(Seq<u8>, Value)>,
    i: int,
    st: WriteState,
)
    requires
        heap_ok(h),
        fields_ok(fields, h.len() as int),
        tables_ok(h, st),
    ensures
        tables_ok(h, spec_write_fields(h, fields, i, st).1),
        tables_grow(st, spec_write_fields(h, fields, i, st).1),
    decreases spec_unwritten(h, st), h.len() + 1, fields.len() - i,
{
    if 0 <= i < fields.len() {
        lemma_symbol_tables(h, fields[i].0, st);
        let k = spec_write_symbol(fields[i].0, st);
        lemma_entry_tables(h, fields[i].1, k.1);
        let v = spec_write_entry(h, fields[i].1, k.1);
        lemma_grow_trans(st, k.1, v.1);
        lemma_fields_tables(h, fields, i + 1, v.1);
        lemma_grow_trans(st, v.1, spec_write_fields(h, fields, i + 1, v.1).1);
    }
}

/// Writing the entries of a hash keeps the tables in order.
pub proof fn lemma_entries_tables(
    h: Seq<Node>,
    entries: Seq<(Value, Value)>,
    i: int,
    st: WriteState,
)
    requires
        heap_ok(h),
        entries_ok(entries, h.len() as int),
        tables_ok(h, st),
    ensures
        tables_ok(h, spec_write_entries(h, entries, i, st).1),
        tables_grow(st, spec_write_entries(h, entries, i, st).1),
    decreases spec_unwritten(h, st), h.len() + 1, entries.len() - i,
{
    if 0 <= i < entries.len() {
        lemma_entry_tables(h, entries[i].0, st);
        let k = spec_write_entry(h, entries[i].0, st);
        lemma_entry_tables(h, entries[i].1, k.1);
        let v = spec_write_entry(h, entries[i].1, k.1);
        lemma_grow_trans(st, k.1, v.1);
        lemma_entries_tables(h, entries, i + 1, v.1);
        lemma_grow_trans(st, v.1, spec_write_entries(h, entries, i + 1, v.1).1);
    }
}

/// Writing a field tail keeps the tables in order.
pub proof fn lemma_pairs_tables(h: Seq<Node>, fields: Seq<(Seq<u8>, Value)>, st: WriteState)
    requires
        heap_ok(h),
        fields_ok(fields, h.len() as int),
        tables_ok(h, st),
    ensures
        tables_ok(h, spec_write_pairs(h, fields, st).1),
        tables_grow(st, spec_write_pairs(h, fields, st).1),
    decreases spec_unwritten(h, st), h.len() + 2, 0int,
{
    lemma_fields_tables(h, fields, 0, st);
}

/// Writing the body of an object keeps the tables in order.
pub proof fn lemma_object_tables(
    h: Seq<Node>,
    name: Seq<u8>,
    fields: Seq<(Seq<u8>, Value)>,
    st: WriteState,
)
    requires
        heap_ok(h),
        fields_ok(fields, h.len() as int),
        tables_ok(h, st),
    ensures
        tables_ok(h, spec_write_object(h, name, fields, st).1),
        tables_grow(st, spec_write_object(h, name, fields, st).1),
    decreases spec_unwritten(h, st), h.len() + 3, 0int,
{
    lemma_symbol_tables(h, name, st);
    let n = spec_write_symbol(name, st);
    lemma_pairs_tables(h, fields, n.1);
    lemma_grow_trans(st, n.1, spec_write_pairs(h, fields, n.1).1);
}

/// Writing an envelope keeps the tables in order.
pub proof fn lemma_typed_tables(h: Seq<Node>, name: Seq<u8>, data: Value, tag: u8, st: WriteState)
    requires
        heap_ok(h),
        value_ok(data, h.len() as int),
        tables_ok(h, st),
    ensures
        tables_ok(h, spec_write_typed_data(h, name, data, tag, st).1),
        tables_grow(st, spec_write_typed_data(h, name, data, tag, st).1),
    decreases spec_unwritten(h, st), h.len() + 3, 0int,
{
    lemma_symbol_tables(h, name, st);
    let n = spec_write_symbol(name, st);
    lemma_entry_tables(h, data, n.1);
    lemma_grow_trans(st, n.1, spec_write_entry(h, data, n.1).1);
}

/// Writing a hash keeps the tables in order.
pub proof fn lemma_hash_tables(
    h: Seq<Node>,
    entries: Seq<(Value, Value)>,
    default: Option<Value>,
    st: WriteState,
)
    requires
        heap_ok(h),
        entries_ok(entries, h.len() as int),
        default matches Some(d) ==> value_ok(d, h.len() as int),
        tables_ok(h, st),
    ensures
        tables_ok(h, spec_write_hash(h, entries, default, st).1),
        tables_grow(st, spec_write_hash(h, entries, default, st).1),
    decreases spec_unwritten(h, st), h.len() + 3, 0int,
{
    lemma_entries_tables(h, entries, 0, st);
    let b = spec_write_entries(h, entries, 0, st);
    match default {
        Some(d) => {
            lemma_entry_tables(h, d, b.1);
            lemma_grow_trans(st, b.1, spec_write_entry(h, d, b.1).1);
        },
        None => {},
    }
}

/// Writing an object in full keeps the tables in order.
pub proof fn lemma_node_tables(h: Seq<Node>, node: Node, st: WriteState)
    requires
        heap_ok(h),
        node_ok(node, h.len() as int, h.len() as int),
        tables_ok(h, st),
    ensures
        tables_ok(h, spec_write_node(h, node, st).1),
        tables_grow(st, spec_write_node(h, node, st).1),
    decreases spec_unwritten(h, st), h.len() + 4, 0int,
{
    match node {
        Node::Array(items) => {
            lemma_items_tables(h, items, 0, st);
        },
        Node::Str(text) => {
            lemma_symbol_tables(h, seq![69u8], st);
        },
        Node::StrI { content, metadata } => {
            lemma_pairs_tables(h, metadata, st);
        },
        Node::Regex { content, flags } => {
            lemma_symbol_tables(h, seq![69u8], st);
        },
        Node::RegexI { content, flags, metadata } => {
            lemma_pairs_tables(h, metadata, st);
        },
        Node::Hash { entries, default } => {
            lemma_hash_tables(h, entries, default, st);
        },
        Node::Struct { name, fields } => {
            lemma_object_tables(h, name, fields, st);
        },
        Node::Object { name, fields } => {
            lemma_object_tables(h, name, fields, st);
        },
        Node::Data { name, data } => {
            lemma_typed_tables(h, name, data, crate::consts::T_DATA, st);
        },
        Node::UserClass { name, data } => {
            lemma_typed_tables(h, name, data, crate::consts::T_USER_CLASS, st);
        },
        Node::UserData { name, data } => {
            lemma_symbol_tables(h, name, st);
        },
        Node::UserMarshal { name, data } => {
            lemma_typed_tables(h, name, data, crate::consts::T_USER_MARSHAL, st);
        },
        Node::Extended { module, object } => {
            lemma_typed_tables(h, module, object, crate::consts::T_EXTENDED, st);
        },
        _ => {},
    }
}

/// Encoding writes no object in full more than once, and no symbol: the
/// tables that the writer ends with hold no object and no symbol twice.
/// Every object of the object table is an object of the graph, so the
/// objects written in full are no more than the graph has; every other
/// occurrence of an object is written as a reference.
pub proof fn lemma_payloads_bounded(h: Seq<Node>, v: Value)
    requires
        heap_ok(h),
        value_ok(v, h.len() as int),
    ensures
        tables_ok(h, spec_write_entry(h, v, spec_fresh()).1),
        spec_write_entry(h, v, spec_fresh()).1.objects.len() <= h.len(),
{
    lemma_entry_tables(h, v, spec_fresh());
    let st = spec_write_entry(h, v, spec_fresh()).1;
    lemma_distinct_bound(st.objects, h.len() as int);
}

} // verus!
