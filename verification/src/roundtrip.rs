//! Decoding gives back what was encoded.
//!
//! The proof follows the writer step by step and shows that the reader,
//! set at the bytes that a step of the writer made, takes the matching
//! step: it ends where those bytes end, its tables are those of the writer,
//! and what it read is like what was written.

use vstd::prelude::*;
use crate::consts::{
    T_TRUE, T_FALSE, T_NIL, T_INT, T_SYMBOL, T_SYMBOL_REF, T_OBJECT_REF, T_INSTANCE, T_ARRAY,
    T_CLASS, T_MODULE, T_CLASS_MODULE, T_DATA, T_HASH, T_HASH_DEFAULT, T_OBJECT, T_REGEX,
    T_STRING, T_STRUCT, T_USER_CLASS, T_USER_MARSHAL, T_EXTENDED,
};
use crate::context::{entries_ok, fields_ok, heap_ok, node_ok, value_ok, values_ok};
use crate::emit::{
    spec_encode, spec_flag_byte, spec_fresh, spec_len32, spec_level, spec_unwritten, spec_utf8,
    spec_write_entries, spec_write_entry, spec_write_et, spec_write_fields, spec_write_hash,
    spec_write_items, spec_write_len_bytes, spec_write_node, spec_write_object,
    spec_write_pairs, spec_write_ref, spec_write_symbol, spec_write_typed_data, WriteState,
};
use crate::error::ThurgoodError;
use crate::framing::{
    fits32, lemma_count_fits, lemma_read_int_at, lemma_read_len_bytes_at, lemma_read_symbol_at,
    lemma_stands3, lemma_stands4, lemma_stands_byte, lemma_stands_split, stands,
};
use crate::leaves::{
    lemma_bignum_back, lemma_flag_byte, lemma_float_back, lemma_instance_head,
    lemma_regex_body_back, lemma_str_body_back, lemma_text_back, lemma_tied_symbol,
    lemma_user_data_back, spec_with_symbols,
};
use crate::likeness::{
    continues, entries_plain, fields_plain, graph_plain, keeps, lemma_continues_keeps,
    lemma_continues_trans, lemma_find_starts, lemma_grow_starts, lemma_like_distinct,
    lemma_like_entries_keeps, lemma_like_fields_mark, lemma_like_keeps, lemma_like_node_keeps,
    lemma_tied_basics, like, like_entries, like_fields, like_items, like_node, node_plain,
    starts, tied, value_plain, values_plain,
};
use crate::node::Node;
use crate::ordered::{lemma_find, lemma_insert_fresh, spec_find};
use crate::tables::{
    lemma_entries_tables, lemma_entry_tables, lemma_fields_tables, lemma_items_tables,
    lemma_node_tables, lemma_pairs_tables, lemma_push_tables, lemma_symbol_tables,
};
use crate::value::Value;
use crate::varint::spec_varint;
use crate::wire::{
    lemma_instance_regex, lemma_instance_string, lemma_payload_array, lemma_payload_bignum,
    lemma_payload_envelope, lemma_payload_float, lemma_payload_hash, lemma_payload_instance,
    lemma_payload_name, lemma_payload_object, lemma_payload_user_data, spec_as_array,
    spec_decode, spec_placeholder, spec_read_array, spec_read_class, spec_read_default,
    spec_read_entries, spec_read_entry, spec_read_entry_symbol, spec_read_hash,
    spec_read_instance_regex, spec_read_instance_string, spec_read_items, spec_read_object,
    spec_read_object_ref, spec_read_pairs, spec_read_payload, spec_read_ref, spec_read_tail,
    spec_start, Parsed, ReadState,
};

verus! {

/// What a proof of reading back is about: the graph that was encoded, the
/// bytes that are decoded, and whether the reader is lax.
pub struct Scene {
    pub h: Seq<Node>,
    pub b: Seq<u8>,
    pub lax: bool,
}

/// The graph is well-formed and the format can carry it.
pub open spec fn scene_ok(sc: Scene) -> bool {
    heap_ok(sc.h) && graph_plain(sc.h)
}

/// The tag of an object that takes a place in the object table.
pub open spec fn is_object_tag(tag: u8) -> bool {
    &&& tag != T_TRUE
    &&& tag != T_FALSE
    &&& tag != T_NIL
    &&& tag != T_INT
    &&& tag != T_SYMBOL
    &&& tag != T_SYMBOL_REF
    &&& tag != T_OBJECT_REF
    &&& tag != T_EXTENDED
}

/// The reader succeeded, ended at `end`, has followed the writer to the
/// tables `sw2`, and continues from the state `sr`.
pub open spec fn follows<T>(
    sc: Scene,
    sw2: WriteState,
    sr: ReadState,
    open: Set<int>,
    r: Parsed<T>,
    end: int,
) -> bool {
    &&& r is Ok
    &&& r->Ok_0.1 == end
    &&& tied(sc.h, sw2, r->Ok_0.2, open)
    &&& continues(sr, r->Ok_0.2)
}

/// An entry is read back from where it was written.
pub open spec fn entry_back(
    sc: Scene,
    v: Value,
    sw: WriteState,
    pos: int,
    sr: ReadState,
    open: Set<int>,
) -> bool {
    let w = spec_write_entry(sc.h, v, sw);
    let r = spec_read_entry(sc.b, pos, sr, sc.lax);
    &&& w.0.len() > 0
    &&& follows(sc, w.1, sr, open, r, pos + w.0.len())
    &&& like(sc.h, r->Ok_0.2.heap, w.1.objects, r->Ok_0.2.objects, v, r->Ok_0.0)
    &&& (v is Ref && sc.h[v->Ref_0] is Extended ==> r->Ok_0.0 is Ref && r->Ok_0.0->Ref_0
        >= sr.heap.len())
}

/// What the proof of reading an object back starts from.
pub open spec fn node_ready(
    sc: Scene,
    node: Node,
    sw: WriteState,
    pos: int,
    sr: ReadState,
    open: Set<int>,
) -> bool {
    &&& scene_ok(sc)
    &&& node_ok(node, sc.h.len() as int, sc.h.len() as int)
    &&& node_plain(node)
    &&& !(node is Extended)
    &&& tied(sc.h, sw, sr, open)
    &&& stands(sc.b, pos, spec_write_node(sc.h, node, sw).0)
    &&& fits32(spec_write_node(sc.h, node, sw).1.symbols.len() as int)
}

/// An object is read back from where it was written in full.
pub open spec fn node_back(
    sc: Scene,
    node: Node,
    sw: WriteState,
    pos: int,
    sr: ReadState,
    open: Set<int>,
) -> bool {
    let w = spec_write_node(sc.h, node, sw);
    let r = spec_read_payload(sc.b, pos + 1, sr, sc.lax, sc.b[pos]);
    &&& w.0.len() > 0
    &&& is_object_tag(sc.b[pos])
    &&& follows(sc, w.1, sr, open, r, pos + w.0.len())
    &&& like_node(sc.h, r->Ok_0.2.heap, w.1.objects, r->Ok_0.2.objects, node, r->Ok_0.0)
    &&& !(r->Ok_0.0 is Extended)
}

/// The state of a reader that has taken a place for an object.
pub open spec fn spec_opened(sr: ReadState) -> ReadState {
    ReadState {
        heap: sr.heap.push(spec_placeholder()),
        symbols: sr.symbols,
        objects: sr.objects.push(sr.heap.len() as int),
    }
}

/// The state of a reader that has put an object in its place.
pub open spec fn spec_closed(sr: ReadState, at: int, node: Node) -> ReadState {
    ReadState { heap: sr.heap.update(at, node), symbols: sr.symbols, objects: sr.objects }
}

/// Where the writer enters an object in its table and the reader takes a
/// place for it, the reader still follows the writer, with the object open.
pub proof fn lemma_tied_open(
    h: Seq<Node>,
    id: int,
    sw: WriteState,
    sr: ReadState,
    open: Set<int>,
)
    requires
        0 <= id < h.len(),
        !(h[id] is Extended),
        tied(h, sw, sr, open),
        spec_find(sw.objects, id) is None,
    ensures
        tied(
            h,
            WriteState { symbols: sw.symbols, objects: sw.objects.push(id) },
            spec_opened(sr),
            open.insert(sw.objects.len() as int),
        ),
        continues(sr, spec_opened(sr)),
        !open.contains(sw.objects.len() as int),
{
    reveal(tied);
    lemma_push_tables(h, id, sw);
    let sw1 = WriteState { symbols: sw.symbols, objects: sw.objects.push(id) };
    let sr1 = spec_opened(sr);
    let open1 = open.insert(sw.objects.len() as int);
    let k = sw.objects.len() as int;
    assert(!open.contains(k)) by {
        if open.contains(k) {
            assert(0 <= k < sw.objects.len());
        }
    }
    assert forall|i: int, j: int|
        0 <= i < sr1.objects.len() && 0 <= j < sr1.objects.len() && i
            != j implies sr1.objects[i] != sr1.objects[j] by {
        if i < k {
            assert(sr1.objects[i] == sr.objects[i]);
        }
        if j < k {
            assert(sr1.objects[j] == sr.objects[j]);
        }
    }
    assert forall|x: int| open1.contains(x) implies 0 <= x < sw1.objects.len() by {
        if x != k {
            assert(open.contains(x));
        }
    }
    assert forall|i: int| 0 <= i < sr1.objects.len() implies 0 <= #[trigger] sr1.objects[i]
        < sr1.heap.len() && !(sr1.heap[sr1.objects[i]] is Extended) by {
        if i < k {
            assert(sr1.objects[i] == sr.objects[i]);
            assert(sr1.heap[sr.objects[i]] == sr.heap[sr.objects[i]]);
        }
    }
    lemma_continues_keeps(sr, sr1);
    assert forall|i: int| 0 <= i < sr1.objects.len() && !open1.contains(i) implies like_node(
        h,
        sr1.heap,
        sw1.objects,
        sr1.objects,
        h[#[trigger] sw1.objects[i]],
        sr1.heap[sr1.objects[i]],
    ) by {
        assert(i < k);
        assert(sw1.objects[i] == sw.objects[i]);
        assert(sr1.objects[i] == sr.objects[i]);
        assert(sr1.heap[sr.objects[i]] == sr.heap[sr.objects[i]]);
        lemma_like_node_keeps(
            h,
            sr.heap,
            sw.objects,
            sr.objects,
            sr1.heap,
            sw1.objects,
            sr1.objects,
            h[sw.objects[i]],
            sr.heap[sr.objects[i]],
        );
    }
}

/// Where the reader puts the object it has read in the place it took for
/// it, and the object is like the one that the writer wrote, the reader
/// follows the writer with that object no longer open.
pub proof fn lemma_tied_close(
    h: Seq<Node>,
    k: int,
    sw: WriteState,
    sr: ReadState,
    open: Set<int>,
    node: Node,
)
    requires
        0 <= k < sw.objects.len(),
        !open.contains(k),
        tied(h, sw, sr, open.insert(k)),
        like_node(h, sr.heap, sw.objects, sr.objects, h[sw.objects[k]], node),
        !(node is Extended),
    ensures
        tied(h, sw, spec_closed(sr, sr.objects[k], node), open),
        keeps(sr.heap, spec_closed(sr, sr.objects[k], node).heap),
{
    reveal(tied);
    let at = sr.objects[k];
    let sr2 = spec_closed(sr, at, node);
    assert(0 <= sr.objects[k] < sr.heap.len());
    assert(keeps(sr.heap, sr2.heap)) by {
        assert forall|j: int| 0 <= j < sr.heap.len() implies (if (#[trigger] sr.heap[j])
            is Extended {
            sr2.heap[j] == sr.heap[j]
        } else {
            !(sr2.heap[j] is Extended)
        }) by {
            if j == at {
                assert(!(sr.heap[sr.objects[k]] is Extended));
            }
        }
    }
    assert forall|x: int| open.contains(x) implies 0 <= x < sw.objects.len() by {
        assert(open.insert(k).contains(x));
    }
    assert forall|i: int| 0 <= i < sr2.objects.len() implies 0 <= #[trigger] sr2.objects[i]
        < sr2.heap.len() && !(sr2.heap[sr2.objects[i]] is Extended) by {
        assert(sr2.objects[i] == sr.objects[i]);
        if i != k {
            assert(sr.objects[i] != sr.objects[k]);
        }
    }
    assert forall|i: int| 0 <= i < sr2.objects.len() && !open.contains(i) implies like_node(
        h,
        sr2.heap,
        sw.objects,
        sr2.objects,
        h[#[trigger] sw.objects[i]],
        sr2.heap[sr2.objects[i]],
    ) by {
        if i == k {
            lemma_like_node_keeps(
                h,
                sr.heap,
                sw.objects,
                sr.objects,
                sr2.heap,
                sw.objects,
                sr2.objects,
                h[sw.objects[k]],
                node,
            );
        } else {
            assert(!open.insert(k).contains(i));
            assert(sr.objects[i] != sr.objects[k]);
            lemma_like_node_keeps(
                h,
                sr.heap,
                sw.objects,
                sr.objects,
                sr2.heap,
                sw.objects,
                sr2.objects,
                h[sw.objects[i]],
                sr.heap[sr.objects[i]],
            );
        }
    }
}

/// Where the reader adds an extended object to its graph, it still follows
/// the writer.
pub proof fn lemma_tied_extend(
    h: Seq<Node>,
    sw: WriteState,
    sr: ReadState,
    open: Set<int>,
    node: Node,
)
    requires
        tied(h, sw, sr, open),
    ensures
        tied(
            h,
            sw,
            ReadState { heap: sr.heap.push(node), symbols: sr.symbols, objects: sr.objects },
            open,
        ),
        continues(
            sr,
            ReadState { heap: sr.heap.push(node), symbols: sr.symbols, objects: sr.objects },
        ),
{
    reveal(tied);
    let sr2 = ReadState { heap: sr.heap.push(node), symbols: sr.symbols, objects: sr.objects };
    assert(continues(sr, sr2));
    lemma_continues_keeps(sr, sr2);
    assert forall|i: int| 0 <= i < sr2.objects.len() implies 0 <= #[trigger] sr2.objects[i]
        < sr2.heap.len() && !(sr2.heap[sr2.objects[i]] is Extended) by {
        assert(sr2.objects[i] == sr.objects[i]);
        assert(sr2.heap[sr.objects[i]] == sr.heap[sr.objects[i]]);
    }
    assert forall|i: int| 0 <= i < sr2.objects.len() && !open.contains(i) implies like_node(
        h,
        sr2.heap,
        sw.objects,
        sr2.objects,
        h[#[trigger] sw.objects[i]],
        sr2.heap[sr2.objects[i]],
    ) by {
        assert(sr2.heap[sr.objects[i]] == sr.heap[sr.objects[i]]);
        lemma_like_node_keeps(
            h,
            sr.heap,
            sw.objects,
            sr.objects,
            sr2.heap,
            sw.objects,
            sr2.objects,
            h[sw.objects[i]],
            sr.heap[sr.objects[i]],
        );
    }
}

/// An entry is read back from where the writer wrote it.
#[verifier::rlimit(60)]
pub proof fn lemma_entry_back(
    sc: Scene,
    v: Value,
    sw: WriteState,
    pos: int,
    sr: ReadState,
    open: Set<int>,
)
    requires
        scene_ok(sc),
        value_ok(v, sc.h.len() as int),
        value_plain(v),
        tied(sc.h, sw, sr, open),
        stands(sc.b, pos, spec_write_entry(sc.h, v, sw).0),
        fits32(spec_write_entry(sc.h, v, sw).1.symbols.len() as int),
    ensures
        entry_back(sc, v, sw, pos, sr, open),
    decreases spec_unwritten(sc.h, sw), spec_level(sc.h, v), 1int,
{
    let w = spec_write_entry(sc.h, v, sw);
    match v {
        Value::Nil => {
            lemma_stands_byte(sc.b, pos, w.0, 0);
        },
        Value::True => {
            lemma_stands_byte(sc.b, pos, w.0, 0);
        },
        Value::False => {
            lemma_stands_byte(sc.b, pos, w.0, 0);
        },
        Value::Int(i) => {
            lemma_stands_split(sc.b, pos, seq![T_INT], spec_varint(i));
            lemma_stands_byte(sc.b, pos, seq![T_INT], 0);
            lemma_read_int_at(sc.b, pos + 1, i);
        },
        Value::Symbol(s) => {
            lemma_tied_basics(sc.h, sw, sr, open);
            lemma_symbol_tables(sc.h, s, sw);
            lemma_read_symbol_at(sc.b, pos, s, sw, sr, sc.lax);
            lemma_tied_symbol(sc.h, sw, sr, open, s);
        },
        Value::Ref(id) => {
            if sc.h[id] is Extended {
                lemma_ref_extended(sc, id, sw, pos, sr, open);
            } else if spec_find(sw.objects, id) is Some {
                lemma_ref_known(sc, id, sw, pos, sr, open);
            } else {
                lemma_ref_new(sc, id, sw, pos, sr, open);
            }
        },
    }
}

/// An object that the writer wrote before is read back from the reference
/// that the writer wrote for it.
pub proof fn lemma_ref_known(
    sc: Scene,
    id: int,
    sw: WriteState,
    pos: int,
    sr: ReadState,
    open: Set<int>,
)
    requires
        scene_ok(sc),
        0 <= id < sc.h.len(),
        !(sc.h[id] is Extended),
        spec_find(sw.objects, id) is Some,
        tied(sc.h, sw, sr, open),
        stands(sc.b, pos, spec_write_ref(sc.h, id, sw).0),
    ensures
        entry_back(sc, Value::Ref(id), sw, pos, sr, open),
{
    lemma_tied_basics(sc.h, sw, sr, open);
    lemma_find(sw.objects, id);
    let k = spec_find(sw.objects, id)->Some_0;
    crate::serialize::lemma_distinct_bound(sw.objects, sc.h.len() as int);
    let tail = spec_varint(spec_len32(k));
    assert(spec_write_ref(sc.h, id, sw).0 == seq![T_OBJECT_REF] + tail);
    lemma_stands_split(sc.b, pos, seq![T_OBJECT_REF], tail);
    lemma_stands_byte(sc.b, pos, seq![T_OBJECT_REF], 0);
    lemma_read_int_at(sc.b, pos + 1, spec_len32(k));
    lemma_count_fits(k);
    assert(spec_read_object_ref(sc.b, pos + 1, sr) == Ok::<(Value, int, ReadState), ThurgoodError>(
        (Value::Ref(sr.objects[k]), pos + 1 + tail.len(), sr),
    ));
    assert(0 <= sr.objects[k] < sr.heap.len());
}

/// An extended object is read back from where the writer wrote it.
pub proof fn lemma_ref_extended(
    sc: Scene,
    id: int,
    sw: WriteState,
    pos: int,
    sr: ReadState,
    open: Set<int>,
)
    requires
        scene_ok(sc),
        0 <= id < sc.h.len(),
        sc.h[id] is Extended,
        tied(sc.h, sw, sr, open),
        stands(sc.b, pos, spec_write_ref(sc.h, id, sw).0),
        fits32(spec_write_ref(sc.h, id, sw).1.symbols.len() as int),
    ensures
        entry_back(sc, Value::Ref(id), sw, pos, sr, open),
    decreases spec_unwritten(sc.h, sw), id + 1, 0int,
{
    let module = sc.h[id]->Extended_module;
    let object = sc.h[id]->Extended_object;
    assert(node_ok(sc.h[id], sc.h.len() as int, id));
    assert(node_plain(sc.h[id]));
    assert(spec_level(sc.h, object) <= id);
    let m = spec_write_symbol(module, sw);
    let o = spec_write_entry(sc.h, object, m.1);
    lemma_tied_basics(sc.h, sw, sr, open);
    assert(spec_write_ref(sc.h, id, sw) == (seq![T_EXTENDED] + m.0 + o.0, o.1));
    lemma_stands3(sc.b, pos, seq![T_EXTENDED], m.0, o.0);
    lemma_stands_byte(sc.b, pos, seq![T_EXTENDED], 0);
    lemma_symbol_tables(sc.h, module, sw);
    lemma_entry_tables(sc.h, object, m.1);
    lemma_read_symbol_at(sc.b, pos + 1, module, sw, sr, sc.lax);
    lemma_tied_symbol(sc.h, sw, sr, open, module);
    let sr1 = spec_with_symbols(sr, m.1);
    let q1 = pos + 1 + m.0.len();
    lemma_entry_back(sc, object, m.1, q1, sr1, open);
    let r = spec_read_entry(sc.b, q1, sr1, sc.lax);
    let w = r->Ok_0.0;
    let sr2 = r->Ok_0.2;
    let q2 = r->Ok_0.1;
    let node = Node::Extended { module, object: w };
    let sr3 = ReadState { heap: sr2.heap.push(node), symbols: sr2.symbols, objects: sr2.objects };
    assert(spec_read_entry_symbol(sc.b, pos + 1, sr, sc.lax) == Ok::<
        (Seq<u8>, int, ReadState),
        ThurgoodError,
    >((module, q1, sr1)));
    assert(spec_read_class(sc.b, pos + 1, sr, sc.lax) == Ok::<
        ((Seq<u8>, Value), int, ReadState),
        ThurgoodError,
    >(((module, w), q2, sr2)));
    assert(spec_read_ref(sc.b, pos + 1, sr, sc.lax, T_EXTENDED) == Ok::<
        (Value, int, ReadState),
        ThurgoodError,
    >((Value::Ref(sr2.heap.len() as int), q2, sr3)));
    lemma_tied_extend(sc.h, o.1, sr2, open, node);
    lemma_continues_trans(sr, sr1, sr2);
    lemma_continues_trans(sr, sr2, sr3);
    lemma_continues_keeps(sr2, sr3);
    lemma_like_keeps(
        sc.h,
        sr2.heap,
        o.1.objects,
        sr2.objects,
        sr3.heap,
        o.1.objects,
        sr3.objects,
        object,
        w,
    );
}

/// An object that the writer writes in full is read back from there.
pub proof fn lemma_ref_new(
    sc: Scene,
    id: int,
    sw: WriteState,
    pos: int,
    sr: ReadState,
    open: Set<int>,
)
    requires
        scene_ok(sc),
        0 <= id < sc.h.len(),
        !(sc.h[id] is Extended),
        spec_find(sw.objects, id) is None,
        tied(sc.h, sw, sr, open),
        stands(sc.b, pos, spec_write_ref(sc.h, id, sw).0),
        fits32(spec_write_ref(sc.h, id, sw).1.symbols.len() as int),
    ensures
        entry_back(sc, Value::Ref(id), sw, pos, sr, open),
    decreases spec_unwritten(sc.h, sw), id + 1, 0int,
{
    let h = sc.h;
    let k = sw.objects.len() as int;
    let sw1 = WriteState { symbols: sw.symbols, objects: sw.objects.push(id) };
    let sr1 = spec_opened(sr);
    let open1 = open.insert(k);
    let at = sr.heap.len() as int;
    lemma_tied_basics(h, sw, sr, open);
    lemma_push_tables(h, id, sw);
    lemma_tied_open(h, id, sw, sr, open);
    assert(node_ok(h[id], h.len() as int, id));
    crate::context::lemma_node_ok_grows(h[id], h.len() as int, h.len() as int, id);
    assert(node_ok(h[id], h.len() as int, h.len() as int));
    assert(node_plain(h[id]));
    let w = spec_write_node(h, h[id], sw1);
    assert(spec_write_ref(h, id, sw) == w);
    lemma_node_tables(h, h[id], sw1);
    lemma_node_back(sc, h[id], sw1, pos, sr1, open1);
    let r = spec_read_payload(sc.b, pos + 1, sr1, sc.lax, sc.b[pos]);
    let node = r->Ok_0.0;
    let sr2 = r->Ok_0.2;
    let sr3 = spec_closed(sr2, at, node);
    assert(sr2.objects[k] == sr1.objects[k]);
    assert(sr1.objects[k] == at);
    assert(spec_read_ref(sc.b, pos + 1, sr, sc.lax, sc.b[pos]) == Ok::<
        (Value, int, ReadState),
        ThurgoodError,
    >((Value::Ref(at), pos + w.0.len(), sr3)));
    lemma_grow_starts(sw1, w.1);
    assert(w.1.objects[k] == sw1.objects[k]);
    lemma_tied_close(h, k, w.1, sr2, open, node);
    assert(continues(sr, sr3)) by {
        lemma_continues_trans(sr, sr1, sr2);
        assert forall|j: int| 0 <= j < sr.heap.len() implies #[trigger] sr3.heap[j]
            == sr.heap[j] by {
            assert(sr2.heap[j] == sr.heap[j]);
        }
    }
    lemma_find(sw.objects, id);
    lemma_find(sw1.objects, id);
    assert(spec_find(sw1.objects, id) == Some(k)) by {
        assert(sw1.objects[k] == id);
        match spec_find(sw1.objects, id) {
            Some(j) => {
                if j < k {
                    assert(sw1.objects[j] == sw.objects[j]);
                }
            },
            None => {},
        }
    }
    lemma_find_starts(sw1.objects, w.1.objects, id);
    assert(sr3.objects[k] == at);
}

/// An object is read back from where the writer wrote it in full.
#[verifier::rlimit(60)]
pub proof fn lemma_node_back(
    sc: Scene,
    node: Node,
    sw: WriteState,
    pos: int,
    sr: ReadState,
    open: Set<int>,
)
    requires
        node_ready(sc, node, sw, pos, sr, open),
    ensures
        node_back(sc, node, sw, pos, sr, open),
    decreases spec_unwritten(sc.h, sw), sc.h.len() + 4, 0int,
{
    match node {
        Node::Float(text) => {
            lemma_float_back(sc.b, pos, text);
            lemma_payload_float(sc.b, pos + 1, sr, sc.lax);
        },
        Node::BigInt { negative, magnitude } => {
            lemma_bignum_back(sc.b, pos, negative, magnitude);
            lemma_payload_bignum(sc.b, pos + 1, sr, sc.lax);
        },
        Node::Array(items) => {
            lemma_array_back(sc, items, sw, pos, sr, open);
        },
        Node::Str(text) => {
            lemma_str_node_back(sc, text, sw, pos, sr, open);
        },
        Node::StrI { content, metadata } => {
            lemma_stri_back(sc, content, metadata, sw, pos, sr, open);
        },
        Node::Regex { content, flags } => {
            lemma_regex_node_back(sc, content, flags, sw, pos, sr, open);
        },
        Node::RegexI { content, flags, metadata } => {
            lemma_regexi_back(sc, content, flags, metadata, sw, pos, sr, open);
        },
        Node::Hash { entries, default } => {
            match default {
                Some(d) => {
                    lemma_hash_default_back(sc, entries, d, sw, pos, sr, open);
                },
                None => {
                    lemma_hash_back(sc, entries, sw, pos, sr, open);
                },
            }
        },
        Node::Struct { name, fields } => {
            lemma_struct_back(sc, name, fields, sw, pos, sr, open);
        },
        Node::Object { name, fields } => {
            lemma_object_back(sc, name, fields, sw, pos, sr, open);
        },
        Node::ClassRef(name) => {
            lemma_name_back(sc, node, sw, pos, sr, open);
        },
        Node::ModuleRef(name) => {
            lemma_name_back(sc, node, sw, pos, sr, open);
        },
        Node::ClassModuleRef(name) => {
            lemma_name_back(sc, node, sw, pos, sr, open);
        },
        Node::Data { name, data } => {
            lemma_data_back(sc, name, data, sw, pos, sr, open);
        },
        Node::UserClass { name, data } => {
            lemma_user_class_back(sc, name, data, sw, pos, sr, open);
        },
        Node::UserData { name, data } => {
            lemma_user_data_node_back(sc, name, data, sw, pos, sr, open);
        },
        Node::UserMarshal { name, data } => {
            lemma_user_marshal_back(sc, name, data, sw, pos, sr, open);
        },
        Node::Extended { module, object } => {},
    }
}

/// A UTF-8 string is read back.
#[verifier::rlimit(60)]
pub proof fn lemma_str_node_back(
    sc: Scene,
    text: Seq<char>,
    sw: WriteState,
    pos: int,
    sr: ReadState,
    open: Set<int>,
)
    requires
        node_ready(sc, Node::Str(text), sw, pos, sr, open),
    ensures
        node_back(sc, Node::Str(text), sw, pos, sr, open),
{
    let e = spec_write_et(sw);
    let head = seq![T_INSTANCE, T_STRING];
    let body = spec_write_len_bytes(spec_utf8(text));
    assert(spec_write_node(sc.h, Node::Str(text), sw) == (head + body + e.0, e.1));
    lemma_tied_basics(sc.h, sw, sr, open);
    lemma_symbol_tables(sc.h, seq![69u8], sw);
    lemma_stands3(sc.b, pos, head, body, e.0);
    lemma_instance_head(sc.b, pos, T_STRING);
    lemma_payload_instance(sc.b, pos + 1, sr, sc.lax);
    lemma_str_body_back(sc.b, pos + 2, text, sw, sr, sc.lax);
    lemma_tied_symbol(sc.h, sw, sr, open, seq![69u8]);
    lemma_instance_string(sc.b, pos + 1, sr, sc.lax);
}

/// A UTF-8 regex is read back.
#[verifier::rlimit(60)]
pub proof fn lemma_regex_node_back(
    sc: Scene,
    text: Seq<char>,
    flags: u32,
    sw: WriteState,
    pos: int,
    sr: ReadState,
    open: Set<int>,
)
    requires
        node_ready(sc, Node::Regex { content: text, flags }, sw, pos, sr, open),
    ensures
        node_back(sc, Node::Regex { content: text, flags }, sw, pos, sr, open),
{
    let e = spec_write_et(sw);
    let flag = spec_flag_byte(flags);
    lemma_flag_byte(flags);
    let head = seq![T_INSTANCE, T_REGEX];
    let body = spec_write_len_bytes(spec_utf8(text));
    assert(spec_write_node(sc.h, Node::Regex { content: text, flags }, sw) == (
        head + body + seq![flag] + e.0,
        e.1,
    ));
    lemma_tied_basics(sc.h, sw, sr, open);
    lemma_symbol_tables(sc.h, seq![69u8], sw);
    lemma_stands4(sc.b, pos, head, body, seq![flag], e.0);
    lemma_instance_head(sc.b, pos, T_REGEX);
    lemma_payload_instance(sc.b, pos + 1, sr, sc.lax);
    lemma_regex_body_back(sc.b, pos + 2, text, flag, sw, sr, sc.lax);
    lemma_tied_symbol(sc.h, sw, sr, open, seq![69u8]);
    lemma_instance_regex(sc.b, pos + 1, sr, sc.lax);
}

/// The name of a class or module is read back.
#[verifier::rlimit(60)]
pub proof fn lemma_name_back(
    sc: Scene,
    node: Node,
    sw: WriteState,
    pos: int,
    sr: ReadState,
    open: Set<int>,
)
    requires
        node_ready(sc, node, sw, pos, sr, open),
        node is ClassRef || node is ModuleRef || node is ClassModuleRef,
    ensures
        node_back(sc, node, sw, pos, sr, open),
{
    let name = match node {
        Node::ClassRef(n) => n,
        Node::ModuleRef(n) => n,
        Node::ClassModuleRef(n) => n,
        _ => Seq::empty(),
    };
    let tag = match node {
        Node::ClassRef(n) => T_CLASS,
        Node::ModuleRef(n) => T_MODULE,
        _ => T_CLASS_MODULE,
    };
    let body = spec_write_len_bytes(spec_utf8(name));
    assert(spec_write_node(sc.h, node, sw).0 == seq![tag] + body);
    lemma_stands_split(sc.b, pos, seq![tag], body);
    lemma_stands_byte(sc.b, pos, seq![tag], 0);
    lemma_payload_name(sc.b, pos + 1, sr, sc.lax, tag);
    lemma_text_back(sc.b, pos + 1, name);
}

/// User data is read back.
#[verifier::rlimit(60)]
pub proof fn lemma_user_data_node_back(
    sc: Scene,
    name: Seq<u8>,
    data: Seq<u8>,
    sw: WriteState,
    pos: int,
    sr: ReadState,
    open: Set<int>,
)
    requires
        node_ready(sc, Node::UserData { name, data }, sw, pos, sr, open),
    ensures
        node_back(sc, Node::UserData { name, data }, sw, pos, sr, open),
{
    lemma_tied_basics(sc.h, sw, sr, open);
    lemma_symbol_tables(sc.h, name, sw);
    lemma_user_data_back(sc.b, pos, name, data, sw, sr, sc.lax);
    lemma_payload_user_data(sc.b, pos + 1, sr, sc.lax);
    lemma_tied_symbol(sc.h, sw, sr, open, name);
}

/// An array is read back.
#[verifier::rlimit(60)]
pub proof fn lemma_array_back(
    sc: Scene,
    items: Seq<Value>,
    sw: WriteState,
    pos: int,
    sr: ReadState,
    open: Set<int>,
)
    requires
        node_ready(sc, Node::Array(items), sw, pos, sr, open),
    ensures
        node_back(sc, Node::Array(items), sw, pos, sr, open),
    decreases spec_unwritten(sc.h, sw), sc.h.len() + 3, 0int,
{
    let bi = spec_write_items(sc.h, items, 0, sw);
    let count = spec_varint(spec_len32(items.len() as int));
    assert(spec_write_node(sc.h, Node::Array(items), sw) == (seq![T_ARRAY] + count + bi.0, bi.1));
    lemma_stands3(sc.b, pos, seq![T_ARRAY], count, bi.0);
    lemma_stands_byte(sc.b, pos, seq![T_ARRAY], 0);
    lemma_payload_array(sc.b, pos + 1, sr, sc.lax);
    lemma_read_int_at(sc.b, pos + 1, spec_len32(items.len() as int));
    lemma_count_fits(items.len() as int);
    let p = pos + 1 + count.len();
    lemma_items_back(sc, items, 0, sw, p, sr, open, Seq::empty());
    let r = spec_read_items(sc.b, p, sr, sc.lax, items.len() as int, Seq::empty());
    assert(spec_read_array(sc.b, pos + 1, sr, sc.lax) == spec_as_array(r));
}

/// The entries of an array from the `i`-th on are read back, after the
/// entries before them.
#[verifier::rlimit(60)]
pub proof fn lemma_items_back(
    sc: Scene,
    items: Seq<Value>,
    i: int,
    sw: WriteState,
    pos: int,
    sr: ReadState,
    open: Set<int>,
    acc: Seq<Value>,
)
    requires
        scene_ok(sc),
        values_ok(items, sc.h.len() as int),
        values_plain(items),
        0 <= i <= items.len(),
        tied(sc.h, sw, sr, open),
        stands(sc.b, pos, spec_write_items(sc.h, items, i, sw).0),
        fits32(spec_write_items(sc.h, items, i, sw).1.symbols.len() as int),
        acc.len() == i,
        forall|j: int|
            0 <= j < i ==> like(sc.h, sr.heap, sw.objects, sr.objects, #[trigger] items[j], acc[j]),
    ensures
        follows(
            sc,
            spec_write_items(sc.h, items, i, sw).1,
            sr,
            open,
            spec_read_items(sc.b, pos, sr, sc.lax, items.len() - i, acc),
            pos + spec_write_items(sc.h, items, i, sw).0.len(),
        ),
        like_items(
            sc.h,
            spec_read_items(sc.b, pos, sr, sc.lax, items.len() - i, acc)->Ok_0.2.heap,
            spec_write_items(sc.h, items, i, sw).1.objects,
            spec_read_items(sc.b, pos, sr, sc.lax, items.len() - i, acc)->Ok_0.2.objects,
            items,
            spec_read_items(sc.b, pos, sr, sc.lax, items.len() - i, acc)->Ok_0.0,
        ),
    decreases spec_unwritten(sc.h, sw), sc.h.len() + 1, items.len() - i,
{
    if i < items.len() {
        let a = spec_write_entry(sc.h, items[i], sw);
        lemma_tied_basics(sc.h, sw, sr, open);
        lemma_entry_tables(sc.h, items[i], sw);
        lemma_items_tables(sc.h, items, i + 1, a.1);
        let rest = spec_write_items(sc.h, items, i + 1, a.1);
        assert(spec_write_items(sc.h, items, i, sw) == (a.0 + rest.0, rest.1));
        lemma_stands_split(sc.b, pos, a.0, rest.0);
        lemma_entry_back(sc, items[i], sw, pos, sr, open);
        let r = spec_read_entry(sc.b, pos, sr, sc.lax);
        let w = r->Ok_0.0;
        let q1 = r->Ok_0.1;
        let sr1 = r->Ok_0.2;
        let acc1 = acc.push(w);
        lemma_continues_keeps(sr, sr1);
        lemma_grow_starts(sw, a.1);
        assert forall|j: int| 0 <= j < i + 1 implies like(
            sc.h,
            sr1.heap,
            a.1.objects,
            sr1.objects,
            #[trigger] items[j],
            acc1[j],
        ) by {
            if j < i {
                lemma_like_keeps(
                    sc.h,
                    sr.heap,
                    sw.objects,
                    sr.objects,
                    sr1.heap,
                    a.1.objects,
                    sr1.objects,
                    items[j],
                    acc[j],
                );
            }
        }
        lemma_items_back(sc, items, i + 1, a.1, q1, sr1, open, acc1);
        let r2 = spec_read_items(sc.b, q1, sr1, sc.lax, items.len() - (i + 1), acc1);
        assert(spec_read_items(sc.b, pos, sr, sc.lax, items.len() - i, acc) == r2);
        lemma_continues_trans(sr, sr1, r2->Ok_0.2);
    } else {
        assert(spec_write_items(sc.h, items, i, sw).0 =~= Seq::<u8>::empty());
    }
}

/// A field tail is read back.
#[verifier::rlimit(60)]
pub proof fn lemma_pairs_back(
    sc: Scene,
    fields: Seq<(Seq<u8>, Value)>,
    sw: WriteState,
    pos: int,
    sr: ReadState,
    open: Set<int>,
)
    requires
        scene_ok(sc),
        fields_ok(fields, sc.h.len() as int),
        fields_plain(fields),
        tied(sc.h, sw, sr, open),
        stands(sc.b, pos, spec_write_pairs(sc.h, fields, sw).0),
        fits32(spec_write_pairs(sc.h, fields, sw).1.symbols.len() as int),
    ensures
        follows(
            sc,
            spec_write_pairs(sc.h, fields, sw).1,
            sr,
            open,
            spec_read_tail(sc.b, pos, sr, sc.lax),
            pos + spec_write_pairs(sc.h, fields, sw).0.len(),
        ),
        like_fields(
            sc.h,
            spec_read_tail(sc.b, pos, sr, sc.lax)->Ok_0.2.heap,
            spec_write_pairs(sc.h, fields, sw).1.objects,
            spec_read_tail(sc.b, pos, sr, sc.lax)->Ok_0.2.objects,
            fields,
            spec_read_tail(sc.b, pos, sr, sc.lax)->Ok_0.0,
        ),
        spec_write_pairs(sc.h, fields, sw).0.len() > 0,
    decreases spec_unwritten(sc.h, sw), sc.h.len() + 2, 0int,
{
    let bf = spec_write_fields(sc.h, fields, 0, sw);
    let count = spec_varint(spec_len32(fields.len() as int));
    assert(spec_write_pairs(sc.h, fields, sw) == (count + bf.0, bf.1));
    lemma_stands_split(sc.b, pos, count, bf.0);
    lemma_read_int_at(sc.b, pos, spec_len32(fields.len() as int));
    lemma_count_fits(fields.len() as int);
    lemma_fields_back(sc, fields, 0, sw, pos + count.len(), sr, open, Seq::empty());
}

/// The fields from the `i`-th on are read back, after the fields before
/// them.
#[verifier::rlimit(60)]
pub proof fn lemma_fields_back(
    sc: Scene,
    fields: Seq<(Seq<u8>, Value)>,
    i: int,
    sw: WriteState,
    pos: int,
    sr: ReadState,
    open: Set<int>,
    acc: Seq<(Seq<u8>, Value)>,
)
    requires
        scene_ok(sc),
        fields_ok(fields, sc.h.len() as int),
        fields_plain(fields),
        0 <= i <= fields.len(),
        tied(sc.h, sw, sr, open),
        stands(sc.b, pos, spec_write_fields(sc.h, fields, i, sw).0),
        fits32(spec_write_fields(sc.h, fields, i, sw).1.symbols.len() as int),
        acc.len() == i,
        forall|j: int|
            0 <= j < i ==> (#[trigger] fields[j]).0 == acc[j].0 && like(
                sc.h,
                sr.heap,
                sw.objects,
                sr.objects,
                fields[j].1,
                acc[j].1,
            ),
    ensures
        follows(
            sc,
            spec_write_fields(sc.h, fields, i, sw).1,
            sr,
            open,
            spec_read_pairs(sc.b, pos, sr, sc.lax, fields.len() - i, acc),
            pos + spec_write_fields(sc.h, fields, i, sw).0.len(),
        ),
        like_fields(
            sc.h,
            spec_read_pairs(sc.b, pos, sr, sc.lax, fields.len() - i, acc)->Ok_0.2.heap,
            spec_write_fields(sc.h, fields, i, sw).1.objects,
            spec_read_pairs(sc.b, pos, sr, sc.lax, fields.len() - i, acc)->Ok_0.2.objects,
            fields,
            spec_read_pairs(sc.b, pos, sr, sc.lax, fields.len() - i, acc)->Ok_0.0,
        ),
    decreases spec_unwritten(sc.h, sw), sc.h.len() + 1, fields.len() - i,
{
    if i < fields.len() {
        let name = fields[i].0;
        let k = spec_write_symbol(name, sw);
        let v = spec_write_entry(sc.h, fields[i].1, k.1);
        lemma_tied_basics(sc.h, sw, sr, open);
        lemma_symbol_tables(sc.h, name, sw);
        lemma_entry_tables(sc.h, fields[i].1, k.1);
        lemma_fields_tables(sc.h, fields, i + 1, v.1);
        crate::tables::lemma_grow_trans(sw, k.1, v.1);
        let rest = spec_write_fields(sc.h, fields, i + 1, v.1);
        assert(spec_write_fields(sc.h, fields, i, sw) == (k.0 + v.0 + rest.0, rest.1));
        lemma_stands3(sc.b, pos, k.0, v.0, rest.0);
        lemma_read_symbol_at(sc.b, pos, name, sw, sr, sc.lax);
        lemma_tied_symbol(sc.h, sw, sr, open, name);
        let sr1 = spec_with_symbols(sr, k.1);
        let q1 = pos + k.0.len();
        lemma_entry_back(sc, fields[i].1, k.1, q1, sr1, open);
        let r = spec_read_entry(sc.b, q1, sr1, sc.lax);
        let w = r->Ok_0.0;
        let q2 = r->Ok_0.1;
        let sr2 = r->Ok_0.2;
        assert forall|j: int| 0 <= j < acc.len() implies (#[trigger] acc[j]).0 != name by {
            assert(fields[j].0 == acc[j].0);
        }
        lemma_insert_fresh(acc, name, w);
        let acc1 = acc.push((name, w));
        lemma_continues_trans(sr, sr1, sr2);
        lemma_continues_keeps(sr, sr2);
        lemma_grow_starts(sw, v.1);
        assert forall|j: int| 0 <= j < i + 1 implies (#[trigger] fields[j]).0 == acc1[j].0
            && like(sc.h, sr2.heap, v.1.objects, sr2.objects, fields[j].1, acc1[j].1) by {
            if j < i {
                lemma_like_keeps(
                    sc.h,
                    sr.heap,
                    sw.objects,
                    sr.objects,
                    sr2.heap,
                    v.1.objects,
                    sr2.objects,
                    fields[j].1,
                    acc[j].1,
                );
            }
        }
        lemma_fields_back(sc, fields, i + 1, v.1, q2, sr2, open, acc1);
        let r2 = spec_read_pairs(sc.b, q2, sr2, sc.lax, fields.len() - (i + 1), acc1);
        assert(spec_read_pairs(sc.b, pos, sr, sc.lax, fields.len() - i, acc) == r2);
        lemma_continues_trans(sr, sr2, r2->Ok_0.2);
    } else {
        assert(spec_write_fields(sc.h, fields, i, sw).0 =~= Seq::<u8>::empty());
    }
}

/// The body of an object or a struct is read back.
#[verifier::rlimit(60)]
pub proof fn lemma_object_body_back(
    sc: Scene,
    name: Seq<u8>,
    fields: Seq<(Seq<u8>, Value)>,
    sw: WriteState,
    pos: int,
    sr: ReadState,
    open: Set<int>,
)
    requires
        scene_ok(sc),
        fits32(name.len() as int),
        fields_ok(fields, sc.h.len() as int),
        fields_plain(fields),
        tied(sc.h, sw, sr, open),
        stands(sc.b, pos, spec_write_object(sc.h, name, fields, sw).0),
        fits32(spec_write_object(sc.h, name, fields, sw).1.symbols.len() as int),
    ensures
        follows(
            sc,
            spec_write_object(sc.h, name, fields, sw).1,
            sr,
            open,
            spec_read_object(sc.b, pos, sr, sc.lax),
            pos + spec_write_object(sc.h, name, fields, sw).0.len(),
        ),
        spec_read_object(sc.b, pos, sr, sc.lax)->Ok_0.0.0 == name,
        like_fields(
            sc.h,
            spec_read_object(sc.b, pos, sr, sc.lax)->Ok_0.2.heap,
            spec_write_object(sc.h, name, fields, sw).1.objects,
            spec_read_object(sc.b, pos, sr, sc.lax)->Ok_0.2.objects,
            fields,
            spec_read_object(sc.b, pos, sr, sc.lax)->Ok_0.0.1,
        ),
    decreases spec_unwritten(sc.h, sw), sc.h.len() + 3, 0int,
{
    let n = spec_write_symbol(name, sw);
    let bp = spec_write_pairs(sc.h, fields, n.1);
    assert(spec_write_object(sc.h, name, fields, sw) == (n.0 + bp.0, bp.1));
    lemma_stands_split(sc.b, pos, n.0, bp.0);
    lemma_tied_basics(sc.h, sw, sr, open);
    lemma_symbol_tables(sc.h, name, sw);
    lemma_pairs_tables(sc.h, fields, n.1);
    lemma_read_symbol_at(sc.b, pos, name, sw, sr, sc.lax);
    lemma_tied_symbol(sc.h, sw, sr, open, name);
    let sr1 = spec_with_symbols(sr, n.1);
    let q1 = pos + n.0.len();
    assert(spec_read_entry_symbol(sc.b, pos, sr, sc.lax) == Ok::<
        (Seq<u8>, int, ReadState),
        ThurgoodError,
    >((name, q1, sr1)));
    lemma_pairs_back(sc, fields, n.1, q1, sr1, open);
    let r = spec_read_tail(sc.b, q1, sr1, sc.lax);
    assert(spec_read_object(sc.b, pos, sr, sc.lax) == Ok::<
        ((Seq<u8>, Seq<(Seq<u8>, Value)>), int, ReadState),
        ThurgoodError,
    >(((name, r->Ok_0.0), r->Ok_0.1, r->Ok_0.2)));
    lemma_continues_trans(sr, sr1, r->Ok_0.2);
}

/// An object is read back.
#[verifier::rlimit(60)]
pub proof fn lemma_object_back(
    sc: Scene,
    name: Seq<u8>,
    fields: Seq<(Seq<u8>, Value)>,
    sw: WriteState,
    pos: int,
    sr: ReadState,
    open: Set<int>,
)
    requires
        node_ready(sc, Node::Object { name, fields }, sw, pos, sr, open),
    ensures
        node_back(sc, Node::Object { name, fields }, sw, pos, sr, open),
    decreases spec_unwritten(sc.h, sw), sc.h.len() + 3, 1int,
{
    let w = spec_write_object(sc.h, name, fields, sw);
    assert(spec_write_node(sc.h, Node::Object { name, fields }, sw) == (seq![T_OBJECT] + w.0, w.1));
    lemma_stands_split(sc.b, pos, seq![T_OBJECT], w.0);
    lemma_stands_byte(sc.b, pos, seq![T_OBJECT], 0);
    lemma_payload_object(sc.b, pos + 1, sr, sc.lax, T_OBJECT);
    lemma_object_body_back(sc, name, fields, sw, pos + 1, sr, open);
}

/// A struct is read back.
#[verifier::rlimit(60)]
pub proof fn lemma_struct_back(
    sc: Scene,
    name: Seq<u8>,
    fields: Seq<(Seq<u8>, Value)>,
    sw: WriteState,
    pos: int,
    sr: ReadState,
    open: Set<int>,
)
    requires
        node_ready(sc, Node::Struct { name, fields }, sw, pos, sr, open),
    ensures
        node_back(sc, Node::Struct { name, fields }, sw, pos, sr, open),
    decreases spec_unwritten(sc.h, sw), sc.h.len() + 3, 1int,
{
    let w = spec_write_object(sc.h, name, fields, sw);
    assert(spec_write_node(sc.h, Node::Struct { name, fields }, sw) == (seq![T_STRUCT] + w.0, w.1));
    lemma_stands_split(sc.b, pos, seq![T_STRUCT], w.0);
    lemma_stands_byte(sc.b, pos, seq![T_STRUCT], 0);
    lemma_payload_object(sc.b, pos + 1, sr, sc.lax, T_STRUCT);
    lemma_object_body_back(sc, name, fields, sw, pos + 1, sr, open);
}

/// A name and the entry after it are read back.
#[verifier::rlimit(60)]
pub proof fn lemma_class_back(
    sc: Scene,
    name: Seq<u8>,
    data: Value,
    tag: u8,
    sw: WriteState,
    pos: int,
    sr: ReadState,
    open: Set<int>,
)
    requires
        scene_ok(sc),
        fits32(name.len() as int),
        value_ok(data, sc.h.len() as int),
        value_plain(data),
        tied(sc.h, sw, sr, open),
        stands(sc.b, pos, spec_write_typed_data(sc.h, name, data, tag, sw).0),
        fits32(spec_write_typed_data(sc.h, name, data, tag, sw).1.symbols.len() as int),
    ensures
        sc.b[pos] == tag,
        follows(
            sc,
            spec_write_typed_data(sc.h, name, data, tag, sw).1,
            sr,
            open,
            spec_read_class(sc.b, pos + 1, sr, sc.lax),
            pos + spec_write_typed_data(sc.h, name, data, tag, sw).0.len(),
        ),
        spec_read_class(sc.b, pos + 1, sr, sc.lax)->Ok_0.0.0 == name,
        like(
            sc.h,
            spec_read_class(sc.b, pos + 1, sr, sc.lax)->Ok_0.2.heap,
            spec_write_typed_data(sc.h, name, data, tag, sw).1.objects,
            spec_read_class(sc.b, pos + 1, sr, sc.lax)->Ok_0.2.objects,
            data,
            spec_read_class(sc.b, pos + 1, sr, sc.lax)->Ok_0.0.1,
        ),
        spec_write_typed_data(sc.h, name, data, tag, sw).0.len() > 0,
    decreases spec_unwritten(sc.h, sw), sc.h.len() + 3, 0int,
{
    let n = spec_write_symbol(name, sw);
    let d = spec_write_entry(sc.h, data, n.1);
    assert(spec_write_typed_data(sc.h, name, data, tag, sw) == (seq![tag] + n.0 + d.0, d.1));
    lemma_stands3(sc.b, pos, seq![tag], n.0, d.0);
    lemma_stands_byte(sc.b, pos, seq![tag], 0);
    lemma_tied_basics(sc.h, sw, sr, open);
    lemma_symbol_tables(sc.h, name, sw);
    lemma_entry_tables(sc.h, data, n.1);
    lemma_read_symbol_at(sc.b, pos + 1, name, sw, sr, sc.lax);
    lemma_tied_symbol(sc.h, sw, sr, open, name);
    let sr1 = spec_with_symbols(sr, n.1);
    let q1 = pos + 1 + n.0.len();
    assert(spec_read_entry_symbol(sc.b, pos + 1, sr, sc.lax) == Ok::<
        (Seq<u8>, int, ReadState),
        ThurgoodError,
    >((name, q1, sr1)));
    lemma_entry_back(sc, data, n.1, q1, sr1, open);
    let r = spec_read_entry(sc.b, q1, sr1, sc.lax);
    assert(spec_read_class(sc.b, pos + 1, sr, sc.lax) == Ok::<
        ((Seq<u8>, Value), int, ReadState),
        ThurgoodError,
    >(((name, r->Ok_0.0), r->Ok_0.1, r->Ok_0.2)));
    lemma_continues_trans(sr, sr1, r->Ok_0.2);
}

/// A data object is read back.
#[verifier::rlimit(60)]
pub proof fn lemma_data_back(
    sc: Scene,
    name: Seq<u8>,
    data: Value,
    sw: WriteState,
    pos: int,
    sr: ReadState,
    open: Set<int>,
)
    requires
        node_ready(sc, Node::Data { name, data }, sw, pos, sr, open),
    ensures
        node_back(sc, Node::Data { name, data }, sw, pos, sr, open),
    decreases spec_unwritten(sc.h, sw), sc.h.len() + 3, 1int,
{
    lemma_class_back(sc, name, data, T_DATA, sw, pos, sr, open);
    lemma_payload_envelope(sc.b, pos + 1, sr, sc.lax, T_DATA);
}

/// An instance of a user class is read back.
#[verifier::rlimit(60)]
pub proof fn lemma_user_class_back(
    sc: Scene,
    name: Seq<u8>,
    data: Value,
    sw: WriteState,
    pos: int,
    sr: ReadState,
    open: Set<int>,
)
    requires
        node_ready(sc, Node::UserClass { name, data }, sw, pos, sr, open),
    ensures
        node_back(sc, Node::UserClass { name, data }, sw, pos, sr, open),
    decreases spec_unwritten(sc.h, sw), sc.h.len() + 3, 1int,
{
    lemma_class_back(sc, name, data, T_USER_CLASS, sw, pos, sr, open);
    lemma_payload_envelope(sc.b, pos + 1, sr, sc.lax, T_USER_CLASS);
}

/// A value that stands for an instance is read back.
#[verifier::rlimit(60)]
pub proof fn lemma_user_marshal_back(
    sc: Scene,
    name: Seq<u8>,
    data: Value,
    sw: WriteState,
    pos: int,
    sr: ReadState,
    open: Set<int>,
)
    requires
        node_ready(sc, Node::UserMarshal { name, data }, sw, pos, sr, open),
    ensures
        node_back(sc, Node::UserMarshal { name, data }, sw, pos, sr, open),
    decreases spec_unwritten(sc.h, sw), sc.h.len() + 3, 1int,
{
    lemma_class_back(sc, name, data, T_USER_MARSHAL, sw, pos, sr, open);
    lemma_payload_envelope(sc.b, pos + 1, sr, sc.lax, T_USER_MARSHAL);
}

/// A string that holds bytes is read back.
#[verifier::rlimit(60)]
pub proof fn lemma_stri_back(
    sc: Scene,
    content: Seq<u8>,
    metadata: Seq<(Seq<u8>, Value)>,
    sw: WriteState,
    pos: int,
    sr: ReadState,
    open: Set<int>,
)
    requires
        node_ready(sc, Node::StrI { content, metadata }, sw, pos, sr, open),
    ensures
        node_back(sc, Node::StrI { content, metadata }, sw, pos, sr, open),
    decreases spec_unwritten(sc.h, sw), sc.h.len() + 3, 0int,
{
    let node = Node::StrI { content, metadata };
    let head = seq![T_INSTANCE, T_STRING];
    let body = spec_write_len_bytes(content);
    let bp = spec_write_pairs(sc.h, metadata, sw);
    assert(spec_write_node(sc.h, node, sw) == (head + body + bp.0, bp.1));
    lemma_stands3(sc.b, pos, head, body, bp.0);
    lemma_instance_head(sc.b, pos, T_STRING);
    lemma_payload_instance(sc.b, pos + 1, sr, sc.lax);
    lemma_read_len_bytes_at(sc.b, pos + 2, content);
    let q1 = pos + 2 + body.len();
    lemma_pairs_back(sc, metadata, sw, q1, sr, open);
    let r = spec_read_tail(sc.b, q1, sr, sc.lax);
    lemma_like_fields_mark(
        sc.h,
        r->Ok_0.2.heap,
        bp.1.objects,
        r->Ok_0.2.objects,
        metadata,
        r->Ok_0.0,
    );
    assert(spec_read_instance_string(sc.b, pos + 2, sr, sc.lax) == Ok::<
        (Node, int, ReadState),
        ThurgoodError,
    >((Node::StrI { content, metadata: r->Ok_0.0 }, r->Ok_0.1, r->Ok_0.2)));
    lemma_instance_string(sc.b, pos + 1, sr, sc.lax);
}

/// A regex that holds bytes is read back.
#[verifier::rlimit(60)]
pub proof fn lemma_regexi_back(
    sc: Scene,
    content: Seq<u8>,
    flags: u32,
    metadata: Seq<(Seq<u8>, Value)>,
    sw: WriteState,
    pos: int,
    sr: ReadState,
    open: Set<int>,
)
    requires
        node_ready(sc, Node::RegexI { content, flags, metadata }, sw, pos, sr, open),
    ensures
        node_back(sc, Node::RegexI { content, flags, metadata }, sw, pos, sr, open),
    decreases spec_unwritten(sc.h, sw), sc.h.len() + 3, 0int,
{
    let node = Node::RegexI { content, flags, metadata };
    let head = seq![T_INSTANCE, T_REGEX];
    let body = spec_write_len_bytes(content);
    let flag = spec_flag_byte(flags);
    lemma_flag_byte(flags);
    let bp = spec_write_pairs(sc.h, metadata, sw);
    assert(spec_write_node(sc.h, node, sw) == (head + body + seq![flag] + bp.0, bp.1));
    lemma_stands4(sc.b, pos, head, body, seq![flag], bp.0);
    lemma_instance_head(sc.b, pos, T_REGEX);
    lemma_payload_instance(sc.b, pos + 1, sr, sc.lax);
    lemma_read_len_bytes_at(sc.b, pos + 2, content);
    let q1 = pos + 2 + body.len();
    lemma_stands_byte(sc.b, q1, seq![flag], 0);
    lemma_pairs_back(sc, metadata, sw, q1 + 1, sr, open);
    let r = spec_read_tail(sc.b, q1 + 1, sr, sc.lax);
    lemma_like_fields_mark(
        sc.h,
        r->Ok_0.2.heap,
        bp.1.objects,
        r->Ok_0.2.objects,
        metadata,
        r->Ok_0.0,
    );
    assert(spec_read_instance_regex(sc.b, pos + 2, sr, sc.lax) == Ok::<
        (Node, int, ReadState),
        ThurgoodError,
    >((Node::RegexI { content, flags, metadata: r->Ok_0.0 }, r->Ok_0.1, r->Ok_0.2)));
    lemma_instance_regex(sc.b, pos + 1, sr, sc.lax);
}

/// A hash without a default value is read back.
#[verifier::rlimit(60)]
pub proof fn lemma_hash_back(
    sc: Scene,
    entries: Seq<(Value, Value)>,
    sw: WriteState,
    pos: int,
    sr: ReadState,
    open: Set<int>,
)
    requires
        node_ready(sc, Node::Hash { entries, default: None }, sw, pos, sr, open),
    ensures
        node_back(sc, Node::Hash { entries, default: None }, sw, pos, sr, open),
    decreases spec_unwritten(sc.h, sw), sc.h.len() + 3, 0int,
{
    let node = Node::Hash { entries, default: None };
    let count = spec_varint(spec_len32(entries.len() as int));
    let be = spec_write_entries(sc.h, entries, 0, sw);
    assert(spec_write_hash(sc.h, entries, None, sw) == (seq![T_HASH] + count + be.0, be.1));
    assert(spec_write_node(sc.h, node, sw) == spec_write_hash(sc.h, entries, None, sw));
    lemma_stands3(sc.b, pos, seq![T_HASH], count, be.0);
    lemma_stands_byte(sc.b, pos, seq![T_HASH], 0);
    lemma_payload_hash(sc.b, pos + 1, sr, sc.lax, false);
    lemma_read_int_at(sc.b, pos + 1, spec_len32(entries.len() as int));
    lemma_count_fits(entries.len() as int);
    let q0 = pos + 1 + count.len();
    lemma_entries_back(sc, entries, 0, sw, q0, sr, open, Seq::empty());
    let r = spec_read_entries(sc.b, q0, sr, sc.lax, entries.len() as int, Seq::empty());
    assert(spec_read_hash(sc.b, pos + 1, sr, sc.lax, false) == spec_read_default(
        sc.b,
        q0,
        sc.lax,
        false,
        r,
    ));
}

/// A hash with a default value is read back.
#[verifier::rlimit(60)]
pub proof fn lemma_hash_default_back(
    sc: Scene,
    entries: Seq<(Value, Value)>,
    d: Value,
    sw: WriteState,
    pos: int,
    sr: ReadState,
    open: Set<int>,
)
    requires
        node_ready(sc, Node::Hash { entries, default: Some(d) }, sw, pos, sr, open),
    ensures
        node_back(sc, Node::Hash { entries, default: Some(d) }, sw, pos, sr, open),
    decreases spec_unwritten(sc.h, sw), sc.h.len() + 3, 0int,
{
    let node = Node::Hash { entries, default: Some(d) };
    let count = spec_varint(spec_len32(entries.len() as int));
    let be = spec_write_entries(sc.h, entries, 0, sw);
    lemma_tied_basics(sc.h, sw, sr, open);
    lemma_entries_tables(sc.h, entries, 0, sw);
    lemma_entry_tables(sc.h, d, be.1);
    let last = spec_write_entry(sc.h, d, be.1);
    assert(spec_write_hash(sc.h, entries, Some(d), sw) == (
        seq![T_HASH_DEFAULT] + count + be.0 + last.0,
        last.1,
    ));
    assert(spec_write_node(sc.h, node, sw) == spec_write_hash(sc.h, entries, Some(d), sw));
    lemma_stands4(sc.b, pos, seq![T_HASH_DEFAULT], count, be.0, last.0);
    lemma_stands_byte(sc.b, pos, seq![T_HASH_DEFAULT], 0);
    lemma_payload_hash(sc.b, pos + 1, sr, sc.lax, true);
    lemma_read_int_at(sc.b, pos + 1, spec_len32(entries.len() as int));
    lemma_count_fits(entries.len() as int);
    let q0 = pos + 1 + count.len();
    lemma_entries_back(sc, entries, 0, sw, q0, sr, open, Seq::empty());
    let r = spec_read_entries(sc.b, q0, sr, sc.lax, entries.len() as int, Seq::empty());
    let got = r->Ok_0.0;
    let q1 = r->Ok_0.1;
    let sr1 = r->Ok_0.2;
    assert(spec_read_hash(sc.b, pos + 1, sr, sc.lax, true) == spec_read_default(
        sc.b,
        q0,
        sc.lax,
        true,
        r,
    ));
    lemma_entry_back(sc, d, be.1, q1, sr1, open);
    let r2 = spec_read_entry(sc.b, q1, sr1, sc.lax);
    let sr2 = r2->Ok_0.2;
    lemma_continues_trans(sr, sr1, sr2);
    lemma_continues_keeps(sr1, sr2);
    lemma_grow_starts(be.1, last.1);
    lemma_like_entries_keeps(
        sc.h,
        sr1.heap,
        be.1.objects,
        sr1.objects,
        sr2.heap,
        last.1.objects,
        sr2.objects,
        entries,
        got,
    );
    assert(spec_read_default(sc.b, q0, sc.lax, true, r) == Ok::<
        (Node, int, ReadState),
        ThurgoodError,
    >((Node::Hash { entries: got, default: Some(r2->Ok_0.0) }, r2->Ok_0.1, sr2)));
}

/// The entries of a hash from the `i`-th on are read back, after the
/// entries before them.
#[verifier::rlimit(60)]
pub proof fn lemma_entries_back(
    sc: Scene,
    entries: Seq<(Value, Value)>,
    i: int,
    sw: WriteState,
    pos: int,
    sr: ReadState,
    open: Set<int>,
    acc: Seq<(Value, Value)>,
)
    requires
        scene_ok(sc),
        entries_ok(entries, sc.h.len() as int),
        entries_plain(entries),
        0 <= i <= entries.len(),
        tied(sc.h, sw, sr, open),
        stands(sc.b, pos, spec_write_entries(sc.h, entries, i, sw).0),
        fits32(spec_write_entries(sc.h, entries, i, sw).1.symbols.len() as int),
        acc.len() == i,
        forall|j: int|
            0 <= j < i ==> like(
                sc.h,
                sr.heap,
                sw.objects,
                sr.objects,
                (#[trigger] entries[j]).0,
                acc[j].0,
            ) && like(sc.h, sr.heap, sw.objects, sr.objects, entries[j].1, acc[j].1),
    ensures
        follows(
            sc,
            spec_write_entries(sc.h, entries, i, sw).1,
            sr,
            open,
            spec_read_entries(sc.b, pos, sr, sc.lax, entries.len() - i, acc),
            pos + spec_write_entries(sc.h, entries, i, sw).0.len(),
        ),
        like_entries(
            sc.h,
            spec_read_entries(sc.b, pos, sr, sc.lax, entries.len() - i, acc)->Ok_0.2.heap,
            spec_write_entries(sc.h, entries, i, sw).1.objects,
            spec_read_entries(sc.b, pos, sr, sc.lax, entries.len() - i, acc)->Ok_0.2.objects,
            entries,
            spec_read_entries(sc.b, pos, sr, sc.lax, entries.len() - i, acc)->Ok_0.0,
        ),
    decreases spec_unwritten(sc.h, sw), sc.h.len() + 1, entries.len() - i,
{
    if i < entries.len() {
        let key = entries[i].0;
        let val = entries[i].1;
        let k = spec_write_entry(sc.h, key, sw);
        let v = spec_write_entry(sc.h, val, k.1);
        lemma_tied_basics(sc.h, sw, sr, open);
        lemma_entry_tables(sc.h, key, sw);
        lemma_entry_tables(sc.h, val, k.1);
        lemma_entries_tables(sc.h, entries, i + 1, v.1);
        crate::tables::lemma_grow_trans(sw, k.1, v.1);
        let rest = spec_write_entries(sc.h, entries, i + 1, v.1);
        assert(spec_write_entries(sc.h, entries, i, sw) == (k.0 + v.0 + rest.0, rest.1));
        lemma_stands3(sc.b, pos, k.0, v.0, rest.0);
        lemma_entry_back(sc, key, sw, pos, sr, open);
        let r1 = spec_read_entry(sc.b, pos, sr, sc.lax);
        let kw = r1->Ok_0.0;
        let q1 = r1->Ok_0.1;
        let sr1 = r1->Ok_0.2;
        lemma_entry_back(sc, val, k.1, q1, sr1, open);
        let r2 = spec_read_entry(sc.b, q1, sr1, sc.lax);
        let vw = r2->Ok_0.0;
        let q2 = r2->Ok_0.1;
        let sr2 = r2->Ok_0.2;
        lemma_tied_basics(sc.h, k.1, sr1, open);
        lemma_continues_trans(sr, sr1, sr2);
        lemma_continues_keeps(sr, sr1);
        lemma_continues_keeps(sr, sr2);
        lemma_continues_keeps(sr1, sr2);
        lemma_grow_starts(sw, k.1);
        lemma_grow_starts(sw, v.1);
        lemma_grow_starts(k.1, v.1);
        assert forall|j: int| 0 <= j < acc.len() implies (#[trigger] acc[j]).0 != kw by {
            assert(entries[j].0 != key);
            if key is Ref && sc.h[key->Ref_0] is Extended {
                assert(like(sc.h, sr.heap, sw.objects, sr.objects, entries[j].0, acc[j].0));
            } else {
                lemma_like_keeps(
                    sc.h,
                    sr.heap,
                    sw.objects,
                    sr.objects,
                    sr1.heap,
                    k.1.objects,
                    sr1.objects,
                    entries[j].0,
                    acc[j].0,
                );
                lemma_like_distinct(
                    sc.h,
                    sr1.heap,
                    k.1.objects,
                    sr1.objects,
                    entries[j].0,
                    acc[j].0,
                    key,
                    kw,
                );
            }
        }
        lemma_insert_fresh(acc, kw, vw);
        let acc1 = acc.push((kw, vw));
        assert forall|j: int| 0 <= j < i + 1 implies like(
            sc.h,
            sr2.heap,
            v.1.objects,
            sr2.objects,
            (#[trigger] entries[j]).0,
            acc1[j].0,
        ) && like(sc.h, sr2.heap, v.1.objects, sr2.objects, entries[j].1, acc1[j].1) by {
            if j < i {
                lemma_like_keeps(
                    sc.h,
                    sr.heap,
                    sw.objects,
                    sr.objects,
                    sr2.heap,
                    v.1.objects,
                    sr2.objects,
                    entries[j].0,
                    acc[j].0,
                );
                lemma_like_keeps(
                    sc.h,
                    sr.heap,
                    sw.objects,
                    sr.objects,
                    sr2.heap,
                    v.1.objects,
                    sr2.objects,
                    entries[j].1,
                    acc[j].1,
                );
            } else {
                lemma_like_keeps(
                    sc.h,
                    sr1.heap,
                    k.1.objects,
                    sr1.objects,
                    sr2.heap,
                    v.1.objects,
                    sr2.objects,
                    key,
                    kw,
                );
            }
        }
        lemma_entries_back(sc, entries, i + 1, v.1, q2, sr2, open, acc1);
        let r3 = spec_read_entries(sc.b, q2, sr2, sc.lax, entries.len() - (i + 1), acc1);
        assert(spec_read_entries(sc.b, pos, sr, sc.lax, entries.len() - i, acc) == r3);
        lemma_continues_trans(sr, sr2, r3->Ok_0.2);
    } else {
        assert(spec_write_entries(sc.h, entries, i, sw).0 =~= Seq::<u8>::empty());
    }
}


/// What decoding gives of the bytes of an encoded value, with the state in
/// which the reader ends.
pub open spec fn spec_read_back(h: Seq<Node>, v: Value, rest: Seq<u8>, lax: bool) -> Parsed<Value> {
    spec_read_entry(spec_encode(h, v) + rest, 2, spec_start(), lax)
}

/// The tables with which the writer ends.
pub open spec fn spec_written(h: Seq<Node>, v: Value) -> WriteState {
    spec_write_entry(h, v, spec_fresh()).1
}

/// A value that was encoded can be decoded: the graph is well-formed, the
/// format can carry it, and the symbols that encoding meets are no more
/// than the format can number.
pub open spec fn spec_encodable(h: Seq<Node>, v: Value) -> bool {
    &&& heap_ok(h)
    &&& graph_plain(h)
    &&& value_ok(v, h.len() as int)
    &&& value_plain(v)
    &&& fits32(spec_written(h, v).symbols.len() as int)
}

/// The reader follows the writer from the header on.
proof fn lemma_read_back(h: Seq<Node>, v: Value, rest: Seq<u8>, lax: bool)
    requires
        spec_encodable(h, v),
    ensures
        entry_back(
            Scene { h, b: spec_encode(h, v) + rest, lax },
            v,
            spec_fresh(),
            2,
            spec_start(),
            Set::empty(),
        ),
        spec_encode(h, v).len() == 2 + spec_write_entry(h, v, spec_fresh()).0.len(),
        (spec_encode(h, v) + rest)[0] == 4,
        (spec_encode(h, v) + rest)[1] == 8,
{
    let w = spec_write_entry(h, v, spec_fresh());
    let b = spec_encode(h, v) + rest;
    let sc = Scene { h, b, lax };
    assert(b == seq![4u8, 8u8] + w.0 + rest);
    assert(stands(b, 0, b)) by {
        assert(b.subrange(0, b.len() as int) =~= b);
    }
    lemma_stands3(b, 0, seq![4u8, 8u8], w.0, rest);
    lemma_stands_byte(b, 0, seq![4u8, 8u8], 0);
    lemma_stands_byte(b, 0, seq![4u8, 8u8], 1);
    assert(tied(h, spec_fresh(), spec_start(), Set::empty())) by {
        reveal(tied);
    }
    lemma_entry_back(sc, v, spec_fresh(), 2, spec_start(), Set::empty());
}

/// Decoding gives back what was encoded. For every well-formed graph and
/// value that the format can carry, decoding the bytes of the value, with
/// whatever bytes after them, succeeds and reads just those bytes. The
/// value it gives is like the value that was encoded: the same scalar, or a
/// handle on an object of the same kind and content, whose values are like
/// those of the encoded object in turn. Objects correspond through the
/// object tables, so a handle that occurs in several places of the encoded
/// graph corresponds to one and the same handle in all those places of the
/// decoded graph, also where the graph leads back to itself.
pub proof fn lemma_roundtrip(h: Seq<Node>, v: Value, rest: Seq<u8>, lax: bool)
    requires
        spec_encodable(h, v),
    ensures
        spec_read_back(h, v, rest, lax) is Ok,
        spec_read_back(h, v, rest, lax)->Ok_0.1 == spec_encode(h, v).len(),
        spec_decode(spec_encode(h, v) + rest, lax) == Ok::<(Seq<Node>, Value), ThurgoodError>(
            (spec_read_back(h, v, rest, lax)->Ok_0.2.heap, spec_read_back(h, v, rest, lax)->Ok_0.0),
        ),
        like(
            h,
            spec_read_back(h, v, rest, lax)->Ok_0.2.heap,
            spec_written(h, v).objects,
            spec_read_back(h, v, rest, lax)->Ok_0.2.objects,
            v,
            spec_read_back(h, v, rest, lax)->Ok_0.0,
        ),
        forall|k: int|
            0 <= k < spec_written(h, v).objects.len() ==> like_node(
                h,
                spec_read_back(h, v, rest, lax)->Ok_0.2.heap,
                spec_written(h, v).objects,
                spec_read_back(h, v, rest, lax)->Ok_0.2.objects,
                h[#[trigger] spec_written(h, v).objects[k]],
                spec_read_back(h, v, rest, lax)->Ok_0.2.heap[spec_read_back(
                    h,
                    v,
                    rest,
                    lax,
                )->Ok_0.2.objects[k]],
            ),
{
    lemma_read_back(h, v, rest, lax);
    reveal(tied);
}

/// The reader numbers symbols and objects as the writer did. When the bytes
/// of an encoded value are decoded, the reader ends with the symbol table
/// of the writer, and with an object table of the same length, whose
/// objects are distinct objects of the decoded graph, none of them an
/// extended object: the `k`-th object that the writer wrote in full is the
/// `k`-th object that the reader made.
pub proof fn lemma_tables_agree(h: Seq<Node>, v: Value, rest: Seq<u8>, lax: bool)
    requires
        spec_encodable(h, v),
    ensures
        spec_read_back(h, v, rest, lax) is Ok,
        spec_read_back(h, v, rest, lax)->Ok_0.2.symbols == spec_written(h, v).symbols,
        spec_read_back(h, v, rest, lax)->Ok_0.2.objects.len() == spec_written(h, v).objects.len(),
        spec_read_back(h, v, rest, lax)->Ok_0.2.objects.no_duplicates(),
        forall|k: int|
            0 <= k < spec_written(h, v).objects.len() ==> 0 <= #[trigger] spec_read_back(
                h,
                v,
                rest,
                lax,
            )->Ok_0.2.objects[k] < spec_read_back(h, v, rest, lax)->Ok_0.2.heap.len() && !(
            spec_read_back(h, v, rest, lax)->Ok_0.2.heap[spec_read_back(
                h,
                v,
                rest,
                lax,
            )->Ok_0.2.objects[k]] is Extended),
{
    lemma_read_back(h, v, rest, lax);
    reveal(tied);
}

} // verus!
