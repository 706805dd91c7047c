//! The writer: from a graph to bytes.

use vstd::prelude::*;
use crate::bigint::{spec_padded, RbBigInt};
use crate::consts::{
    T_TRUE, T_FALSE, T_NIL, T_INT, T_SYMBOL, T_SYMBOL_REF, T_OBJECT_REF, T_INSTANCE, T_ARRAY,
    T_BIGNUM, T_CLASS, T_MODULE, T_CLASS_MODULE, T_DATA, T_FLOAT, T_HASH, T_HASH_DEFAULT,
    T_OBJECT, T_REGEX, T_STRING, T_STRUCT, T_USER_CLASS, T_USER_DEFINED, T_USER_MARSHAL,
    T_EXTENDED,
};
use crate::context::{entries_ok, fields_ok, node_ok, value_ok, values_ok, RbContext};
use crate::emit::{
    spec_encode, spec_fresh, spec_len32, spec_level, spec_flag_byte, spec_unwritten, spec_utf8,
    spec_write_bignum, spec_write_entries, spec_write_entry, spec_write_et, spec_write_fields,
    spec_write_float, spec_write_hash, spec_write_items, spec_write_len_bytes, spec_write_node,
    spec_write_object, spec_write_pairs, spec_write_ref, spec_write_symbol,
    spec_write_typed_data, Emitted, WriteState,
};
use crate::error::{TResult, ThurgoodError};
use crate::fields::RbFields;
use crate::float::RbFloat;
use crate::hash::RbHash;
use crate::node::{spec_values, Node, RbRef};
use crate::object::RbObject;
use crate::ordered::{lemma_find, lemma_find_key, spec_find, spec_keys};
use crate::symbol::RbSymbol;
use crate::value::{RbAny, RefId, Value};
use crate::varint::{spec_varint, varint_encode};

verus! {

/// A length, a count or an index, cut to the 32 bits that the format has
/// for it.
fn len32(n: usize) -> (r: i32)
    ensures
        r == spec_len32(n as int),
{
    #[verifier::truncate]
    (n as i32)
}

/// Appends bytes.
fn append_bytes(dst: &mut Vec<u8>, data: &[u8])
    ensures
        final(dst)@ == old(dst)@ + data@,
{
    let mut i: usize = 0;
    while i < data.len()
        invariant
            0 <= i <= data@.len(),
            dst@ == old(dst)@ + data@.subrange(0, i as int),
        decreases data@.len() - i,
    {
        dst.push(data[i]);
        assert(data@.subrange(0, i as int + 1) =~= data@.subrange(0, i as int).push(data@[i as int]));
        i = i + 1;
    }
    assert(data@.subrange(0, data@.len() as int) =~= data@);
}

/// The object table of a writer is in order for a graph of `len` objects:
/// each object of the table has its index in its slot, and each slot that
/// is taken names an index of the table which holds the object of the slot.
pub open spec fn table_ok(slots: Seq<usize>, objects: Seq<int>, len: int) -> bool {
    &&& slots.len() == len
    &&& forall|k: int|
        0 <= k < objects.len() ==> 0 <= #[trigger] objects[k] < len && slots[objects[k]] == k + 1
    &&& forall|id: int|
        0 <= id < len ==> #[trigger] slots[id] == 0 || (1 <= slots[id] <= objects.len()
            && objects[slots[id] - 1] == id)
}

/// Distinct places of a graph are no more than the graph has objects.
pub proof fn lemma_distinct_bound(s: Seq<int>, len: int)
    requires
        s.no_duplicates(),
        0 <= len,
        forall|k: int| 0 <= k < s.len() ==> 0 <= #[trigger] s[k] < len,
    ensures
        s.len() <= len,
{
    s.unique_seq_to_set();
    vstd::set_lib::lemma_int_range(0, len);
    assert(s.to_set().subset_of(vstd::set_lib::set_int_range(0, len))) by {
        assert forall|x: int| s.to_set().contains(x) implies vstd::set_lib::set_int_range(
            0,
            len,
        ).contains(x) by {
            let k = choose|k: int| 0 <= k < s.len() && s[k] == x;
            assert(0 <= s[k] < len);
        }
    }
    vstd::set_lib::lemma_len_subset(s.to_set(), vstd::set_lib::set_int_range(0, len));
}

/// In an object table that is in order no object occurs twice, so the table
/// has no more objects than the graph.
pub proof fn lemma_table_bound(slots: Seq<usize>, objects: Seq<int>, len: int)
    requires
        table_ok(slots, objects, len),
    ensures
        objects.no_duplicates(),
        objects.len() <= len,
{
    assert forall|a: int, b: int|
        0 <= a < objects.len() && 0 <= b < objects.len() && a != b implies objects[a]
        != objects[b] by {
        assert(slots[objects[a]] == a + 1);
        assert(slots[objects[b]] == b + 1);
    }
    lemma_distinct_bound(objects, len);
}

/// While an object of the graph has an empty slot, the table has room.
pub proof fn lemma_table_room(slots: Seq<usize>, objects: Seq<int>, len: int, id: int)
    requires
        table_ok(slots, objects, len),
        0 <= id < len,
        slots[id] == 0,
    ensures
        objects.len() < len,
{
    lemma_table_bound(slots, objects, len);
    let grown = objects.push(id);
    assert forall|a: int, b: int|
        0 <= a < grown.len() && 0 <= b < grown.len() && a != b implies grown[a] != grown[b] by {
        if a < objects.len() {
            assert(slots[objects[a]] == a + 1);
        }
        if b < objects.len() {
            assert(slots[objects[b]] == b + 1);
        }
    }
    lemma_distinct_bound(grown, len);
}

/// What the slot of an object says of the table: an empty slot, that the
/// table does not hold the object; any other, the index of the object.
pub proof fn lemma_table_find(slots: Seq<usize>, objects: Seq<int>, len: int, id: int)
    requires
        table_ok(slots, objects, len),
        0 <= id < len,
    ensures
        slots[id] == 0 ==> spec_find(objects, id) is None,
        slots[id] != 0 ==> spec_find(objects, id) == Some(slots[id] - 1),
{
    lemma_find(objects, id);
    lemma_table_bound(slots, objects, len);
    match spec_find(objects, id) {
        Some(i) => {
            assert(slots[objects[i]] == i + 1);
        },
        None => {
            if slots[id] != 0 {
                assert(objects[slots[id] - 1] == id);
            }
        },
    }
}

/// The start of a string or a regex as an instance.
pub open spec fn spec_head(type_byte: u8, content: Seq<u8>, flags: Option<u8>) -> Seq<u8> {
    seq![T_INSTANCE, type_byte] + spec_write_len_bytes(content) + (match flags {
        Some(f) => seq![f],
        None => Seq::empty(),
    })
}

/// Encodes one graph. It holds the bytes written, the symbol table and the
/// object table.
pub struct RbWriter {
    dst: Vec<u8>,
    symbol_map: RbFields,
    slots: Vec<usize>,
    object_next: usize,
    objects: Ghost<Seq<int>>,
    sym_e: RbSymbol,
}

/// A step of the writer went as the definition of encoding says: the bytes
/// of the definition were appended, their number is returned, and the
/// tables are those of the definition.
pub open spec fn emitted(
    before: RbWriter,
    after: RbWriter,
    h: Seq<Node>,
    want: Emitted,
    n: usize,
) -> bool {
    &&& after.spec_dst() == before.spec_dst() + want.0
    &&& after.state() == want.1
    &&& n == want.0.len()
    &&& after.wf(h)
    &&& before.state().objects.len() <= after.state().objects.len()
}

impl RbWriter {
    /// The bytes written.
    pub closed spec fn spec_dst(&self) -> Seq<u8> {
        self.dst@
    }

    /// The bytes of the symbol that marks a string as UTF-8.
    pub closed spec fn spec_marker(&self) -> Seq<u8> {
        self.sym_e@
    }

    /// The two tables.
    pub closed spec fn state(&self) -> WriteState {
        WriteState { symbols: spec_keys(self.symbol_map@), objects: self.objects@ }
    }

    /// The writer is in order for the graph `h`.
    pub closed spec fn wf(&self, h: Seq<Node>) -> bool {
        &&& table_ok(self.slots@, self.objects@, h.len() as int)
        &&& self.object_next == self.objects@.len()
        &&& self.sym_e@ == seq![69u8]
    }

    /// A writer that appends to the given bytes.
    pub fn new(dst: Vec<u8>) -> (r: RbWriter)
        ensures
            r.spec_dst() == dst@,
            r.state() == spec_fresh(),
    {
        let mut e: Vec<u8> = Vec::new();
        e.push(69);
        let r = RbWriter {
            dst,
            symbol_map: RbFields::new(),
            slots: Vec::new(),
            object_next: 0,
            objects: Ghost(Seq::empty()),
            sym_e: RbSymbol::new(e),
        };
        proof {
            assert(spec_keys(r.symbol_map@) =~= Seq::<Seq<u8>>::empty());
        }
        r
    }

    /// The bytes written.
    pub fn into_inner(self) -> (r: Vec<u8>)
        ensures
            r@ == self.spec_dst(),
    {
        self.dst
    }

    /// Empties the tables and sizes the object table for the graph.
    fn reset(&mut self, ctx: &RbContext)
        ensures
            final(self).wf(ctx@),
            final(self).state() == spec_fresh(),
            final(self).spec_dst() == old(self).spec_dst(),
    {
        let n = ctx.len();
        let mut slots: Vec<usize> = Vec::new();
        let mut i: usize = 0;
        while i < n
            invariant
                0 <= i <= n,
                slots@.len() == i,
                forall|j: int| 0 <= j < i ==> slots@[j] == 0,
            decreases n - i,
        {
            slots.push(0);
            i = i + 1;
        }
        let mut e: Vec<u8> = Vec::new();
        e.push(69);
        self.slots = slots;
        self.symbol_map = RbFields::new();
        self.object_next = 0;
        self.objects = Ghost(Seq::empty());
        self.sym_e = RbSymbol::new(e);
        proof {
            assert(spec_keys(self.symbol_map@) =~= Seq::<Seq<u8>>::empty());
            assert(self.sym_e@ =~= seq![69u8]);
        }
    }

    /// Writes one byte.
    fn write_byte(&mut self, b: u8) -> (r: usize)
        ensures
            final(self).spec_dst() == old(self).spec_dst().push(b),
            final(self).state() == old(self).state(),
            forall|h: Seq<Node>| old(self).wf(h) ==> final(self).wf(h),
            final(self).spec_marker() == old(self).spec_marker(),
            r == 1,
    {
        self.dst.push(b);
        1
    }

    /// Writes a variable-length integer.
    pub fn write_int(&mut self, v: i32) -> (r: usize)
        ensures
            final(self).spec_dst() == old(self).spec_dst() + spec_varint(v),
            final(self).state() == old(self).state(),
            forall|h: Seq<Node>| old(self).wf(h) ==> final(self).wf(h),
            final(self).spec_marker() == old(self).spec_marker(),
            r == spec_varint(v).len(),
    {
        varint_encode(v, &mut self.dst)
    }

    /// Writes the number of the bytes, and the bytes.
    fn write_len_bytes(&mut self, data: &[u8]) -> (r: usize)
        ensures
            final(self).spec_dst() == old(self).spec_dst() + spec_write_len_bytes(data@),
            final(self).state() == old(self).state(),
            forall|h: Seq<Node>| old(self).wf(h) ==> final(self).wf(h),
            final(self).spec_marker() == old(self).spec_marker(),
            r == spec_write_len_bytes(data@).len(),
    {
        let start = self.dst.len();
        self.write_int(len32(data.len()));
        append_bytes(&mut self.dst, data);
        assert(self.dst@ =~= old(self).dst@ + spec_write_len_bytes(data@));
        self.dst.len() - start
    }

    /// Writes a symbol: in full where it is new, and as a reference to its
    /// place in the symbol table where it is not.
    fn write_symbol(&mut self, sym: &RbSymbol) -> (r: usize)
        ensures
            final(self).spec_dst() == old(self).spec_dst() + spec_write_symbol(
                sym@,
                old(self).state(),
            ).0,
            final(self).state() == spec_write_symbol(sym@, old(self).state()).1,
            forall|h: Seq<Node>| old(self).wf(h) ==> final(self).wf(h),
            final(self).spec_marker() == old(self).spec_marker(),
            r == spec_write_symbol(sym@, old(self).state()).0.len(),
    {
        proof {
            lemma_find_key(self.symbol_map@, sym@);
        }
        match self.symbol_map.get_index_of(sym) {
            Some(sym_index) => {
                let a = self.write_byte(T_SYMBOL_REF);
                let b = self.write_int(len32(sym_index));
                assert(self.dst@ =~= old(self).dst@ + (seq![T_SYMBOL_REF] + spec_varint(
                    spec_len32(sym_index as int),
                )));
                a + b
            },
            None => {
                let ghost before = self.symbol_map@;
                self.symbol_map.insert(sym.clone(), RbAny::Nil);
                proof {
                    assert(spec_keys(self.symbol_map@) =~= spec_keys(before).push(sym@));
                }
                let start = self.dst.len();
                self.write_byte(T_SYMBOL);
                self.write_len_bytes(sym.as_bytes());
                assert(self.dst@ =~= old(self).dst@ + (seq![T_SYMBOL] + spec_write_len_bytes(
                    sym@,
                )));
                self.dst.len() - start
            },
        }
    }

    /// Writes the field tail that marks a string as UTF-8.
    fn write_et(&mut self) -> (r: usize)
        requires
            old(self).spec_marker() == seq![69u8],
        ensures
            final(self).spec_dst() == old(self).spec_dst() + spec_write_et(old(self).state()).0,
            final(self).state() == spec_write_et(old(self).state()).1,
            forall|h: Seq<Node>| old(self).wf(h) ==> final(self).wf(h),
            final(self).spec_marker() == old(self).spec_marker(),
            r == spec_write_et(old(self).state()).0.len(),
    {
        let start = self.dst.len();
        let e = self.sym_e.clone();
        self.write_byte(6);
        self.write_symbol(&e);
        self.write_byte(T_TRUE);
        assert(self.dst@ =~= old(self).dst@ + spec_write_et(old(self).state()).0);
        self.dst.len() - start
    }

    /// Writes a float: the tag and the numeral.
    fn write_float(&mut self, v: &RbFloat) -> (r: usize)
        ensures
            final(self).spec_dst() == old(self).spec_dst() + spec_write_float(v@),
            final(self).state() == old(self).state(),
            forall|h: Seq<Node>| old(self).wf(h) ==> final(self).wf(h),
            final(self).spec_marker() == old(self).spec_marker(),
            r == spec_write_float(v@).len(),
    {
        let start = self.dst.len();
        self.write_byte(T_FLOAT);
        self.write_len_bytes(v.as_bytes());
        assert(self.dst@ =~= old(self).dst@ + spec_write_float(v@));
        self.dst.len() - start
    }

    /// Writes the name of a class or module: the tag, the number of bytes
    /// and the bytes.
    fn write_name(&mut self, type_byte: u8, name: &[u8]) -> (r: usize)
        ensures
            final(self).spec_dst() == old(self).spec_dst() + (seq![type_byte]
                + spec_write_len_bytes(name@)),
            final(self).state() == old(self).state(),
            forall|h: Seq<Node>| old(self).wf(h) ==> final(self).wf(h),
            final(self).spec_marker() == old(self).spec_marker(),
            r == (seq![type_byte] + spec_write_len_bytes(name@)).len(),
    {
        let start = self.dst.len();
        self.write_byte(type_byte);
        self.write_len_bytes(name);
        assert(self.dst@ =~= old(self).dst@ + (seq![type_byte] + spec_write_len_bytes(name@)));
        self.dst.len() - start
    }

    /// Writes user data: the tag, the name, the number of bytes and the
    /// bytes.
    fn write_user_data(&mut self, name: &RbSymbol, data: &[u8]) -> (r: usize)
        ensures
            final(self).spec_dst() == old(self).spec_dst() + (seq![T_USER_DEFINED]
                + spec_write_symbol(name@, old(self).state()).0 + spec_write_len_bytes(data@)),
            final(self).state() == spec_write_symbol(name@, old(self).state()).1,
            forall|h: Seq<Node>| old(self).wf(h) ==> final(self).wf(h),
            final(self).spec_marker() == old(self).spec_marker(),
            r == (seq![T_USER_DEFINED] + spec_write_symbol(name@, old(self).state()).0
                + spec_write_len_bytes(data@)).len(),
    {
        let start = self.dst.len();
        self.write_byte(T_USER_DEFINED);
        self.write_symbol(name);
        self.write_len_bytes(data);
        assert(self.dst@ =~= old(self).dst@ + (seq![T_USER_DEFINED] + spec_write_symbol(
            name@,
            old(self).state(),
        ).0 + spec_write_len_bytes(data@)));
        self.dst.len() - start
    }

    /// The start of a string or a regex as an instance: the instance tag,
    /// the tag of the kind, the bytes, and for a regex the byte of flags.
    fn write_head(&mut self, type_byte: u8, content: &[u8], flags: Option<u8>) -> (r: usize)
        ensures
            final(self).spec_dst() == old(self).spec_dst() + spec_head(type_byte, content@, flags),
            final(self).state() == old(self).state(),
            forall|h: Seq<Node>| old(self).wf(h) ==> final(self).wf(h),
            final(self).spec_marker() == old(self).spec_marker(),
            r == spec_head(type_byte, content@, flags).len(),
    {
        let start = self.dst.len();
        self.write_byte(T_INSTANCE);
        self.write_byte(type_byte);
        self.write_len_bytes(content);
        match flags {
            Some(f) => {
                self.write_byte(f);
            },
            None => {},
        }
        assert(self.dst@ =~= old(self).dst@ + spec_head(type_byte, content@, flags));
        self.dst.len() - start
    }

    /// Writes a UTF-8 string or regex: as an instance whose field tail
    /// marks it as UTF-8.
    fn write_text(&mut self, type_byte: u8, content: &[u8], flags: Option<u8>) -> (r: usize)
        requires
            old(self).spec_marker() == seq![69u8],
        ensures
            final(self).spec_dst() == old(self).spec_dst() + (spec_head(
                type_byte,
                content@,
                flags,
            ) + spec_write_et(old(self).state()).0),
            final(self).state() == spec_write_et(old(self).state()).1,
            forall|h: Seq<Node>| old(self).wf(h) ==> final(self).wf(h),
            final(self).spec_marker() == old(self).spec_marker(),
            r == (spec_head(type_byte, content@, flags) + spec_write_et(
                old(self).state(),
            ).0).len(),
    {
        let start = self.dst.len();
        self.write_head(type_byte, content, flags);
        self.write_et();
        assert(self.dst@ =~= old(self).dst@ + (spec_head(type_byte, content@, flags)
            + spec_write_et(old(self).state()).0));
        self.dst.len() - start
    }

    /// Writes one entry.
    fn write_entry(&mut self, ctx: &RbContext, entry: &RbAny) -> (r: usize)
        requires
            old(self).wf(ctx@),
            value_ok(entry@, ctx@.len() as int),
        ensures
            emitted(
                *old(self),
                *final(self),
                ctx@,
                spec_write_entry(ctx@, entry@, old(self).state()),
                r,
            ),
        decreases spec_unwritten(ctx@, old(self).state()), spec_level(ctx@, entry@), 1int,
    {
        match entry {
            RbAny::Int(v) => {
                let start = self.dst.len();
                self.write_byte(T_INT);
                self.write_int(*v);
                assert(self.dst@ =~= old(self).dst@ + (seq![T_INT] + spec_varint(*v)));
                self.dst.len() - start
            },
            RbAny::True => {
                let r = self.write_byte(T_TRUE);
                assert(self.dst@ =~= old(self).dst@ + seq![T_TRUE]);
                r
            },
            RbAny::False => {
                let r = self.write_byte(T_FALSE);
                assert(self.dst@ =~= old(self).dst@ + seq![T_FALSE]);
                r
            },
            RbAny::Nil => {
                let r = self.write_byte(T_NIL);
                assert(self.dst@ =~= old(self).dst@ + seq![T_NIL]);
                r
            },
            RbAny::Symbol(v) => self.write_symbol(v),
            RbAny::Ref(v) => self.write_ref(ctx, v),
        }
    }

    /// Writes the object that a handle names: a reference to it if it was
    /// written before, and else the object in full, after it has taken the
    /// next place in the object table. An extended object takes no place
    /// and is written in full every time.
    fn write_ref(&mut self, ctx: &RbContext, entry: &RefId) -> (r: usize)
        requires
            old(self).wf(ctx@),
            0 <= entry@ < ctx@.len(),
        ensures
            emitted(
                *old(self),
                *final(self),
                ctx@,
                spec_write_ref(ctx@, entry@, old(self).state()),
                r,
            ),
        decreases spec_unwritten(ctx@, old(self).state()), entry@ + 1, 0int,
    {
        let start = self.dst.len();
        let len = ctx.len();
        let at = entry.index();
        let ghost h = ctx@;
        let ghost st = self.state();
        match ctx.get(entry) {
            None => {},
            Some(node) => {
                assert(node_ok(h[at as int], len as int, at as int));
                match node {
                    RbRef::Extended { module, object } => {
                        self.write_byte(T_EXTENDED);
                        self.write_symbol(module);
                        self.write_entry(ctx, object);
                        proof {
                            let m = spec_write_symbol(module@, st);
                            let o = spec_write_entry(h, object@, m.1);
                            assert(self.dst@ =~= old(self).dst@ + (seq![T_EXTENDED] + m.0 + o.0));
                        }
                    },
                    _ => {
                        proof {
                            lemma_table_find(self.slots@, self.objects@, len as int, at as int);
                        }
                        let slot = self.slots[at];
                        if slot != 0 {
                            self.write_byte(T_OBJECT_REF);
                            self.write_int(len32(slot - 1));
                            assert(self.dst@ =~= old(self).dst@ + (seq![T_OBJECT_REF]
                                + spec_varint(spec_len32(slot - 1))));
                        } else {
                            let ghost grown = self.objects@.push(at as int);
                            let ghost marked = self.slots@.update(
                                at as int,
                                (self.object_next + 1) as usize,
                            );
                            proof {
                                lemma_table_room(self.slots@, self.objects@, len as int, at as int);
                                lemma_find(self.objects@, at as int);
                                assert(table_ok(marked, grown, len as int)) by {
                                    assert forall|k: int| 0 <= k < grown.len() implies 0
                                        <= #[trigger] grown[k] < len && marked[grown[k]] == k
                                        + 1 by {
                                        if k < self.objects@.len() {
                                            assert(grown[k] == self.objects@[k]);
                                            assert(self.objects@[k] != at);
                                        }
                                    }
                                    assert forall|id: int| 0 <= id < len implies #[trigger] marked[id]
                                        == 0 || (1 <= marked[id] <= grown.len() && grown[marked[id]
                                        - 1] == id) by {
                                        if id != at {
                                            assert(marked[id] == self.slots@[id]);
                                        }
                                    }
                                }
                            }
                            self.slots.set(at, self.object_next + 1);
                            self.object_next = self.object_next + 1;
                            self.objects = Ghost(grown);
                            self.write_payload(ctx, node);
                        }
                    },
                }
            },
        }
        self.dst.len() - start
    }

    /// Writes an object in full: the tag of its kind and its contents.
    fn write_payload(&mut self, ctx: &RbContext, node: &RbRef) -> (r: usize)
        requires
            old(self).wf(ctx@),
            node_ok(node@, ctx@.len() as int, ctx@.len() as int),
        ensures
            emitted(
                *old(self),
                *final(self),
                ctx@,
                spec_write_node(ctx@, node@, old(self).state()),
                r,
            ),
        decreases spec_unwritten(ctx@, old(self).state()), ctx@.len() + 4, 0int,
    {
        proof {
            reveal(spec_utf8);
            reveal(spec_flag_byte);
        }
        let start = self.dst.len();
        match node {
            RbRef::Float(v) => {
                self.write_float(v);
            },
            RbRef::BigInt(v) => {
                self.write_bignum(v);
            },
            RbRef::Array(v) => {
                self.write_array(ctx, v);
            },
            RbRef::Str(v) => {
                self.write_text(T_STRING, v.as_str().as_bytes(), None);
            },
            RbRef::StrI { content, metadata } => {
                self.write_raw(ctx, T_STRING, content.as_slice(), None, metadata);
            },
            RbRef::Regex { content, flags } => {
                self.write_text(T_REGEX, content.as_str().as_bytes(), Some((*flags % 256) as u8));
            },
            RbRef::RegexI { content, flags, metadata } => {
                self.write_raw(
                    ctx,
                    T_REGEX,
                    content.as_slice(),
                    Some((*flags % 256) as u8),
                    metadata,
                );
            },
            RbRef::Hash(v) => {
                self.write_hash(ctx, v);
            },
            RbRef::Object(v) => {
                self.write_object(ctx, v, T_OBJECT);
            },
            RbRef::Struct(v) => {
                self.write_object(ctx, v, T_STRUCT);
            },
            RbRef::ClassRef(v) => {
                self.write_name(T_CLASS, v.as_str().as_bytes());
            },
            RbRef::ModuleRef(v) => {
                self.write_name(T_MODULE, v.as_str().as_bytes());
            },
            RbRef::ClassModuleRef(v) => {
                self.write_name(T_CLASS_MODULE, v.as_str().as_bytes());
            },
            RbRef::Data(v) => {
                self.write_typed_data(ctx, &v.name, &v.data, T_DATA);
            },
            RbRef::UserClass(v) => {
                self.write_typed_data(ctx, &v.name, &v.data, T_USER_CLASS);
            },
            RbRef::UserData(v) => {
                self.write_user_data(&v.name, v.data.as_slice());
            },
            RbRef::UserMarshal(v) => {
                self.write_typed_data(ctx, &v.name, &v.data, T_USER_MARSHAL);
            },
            RbRef::Extended { module, object } => {
                self.write_typed_data(ctx, module, object, T_EXTENDED);
            },
        }
        self.dst.len() - start
    }

    /// Writes a string or regex that is not known to be UTF-8: as an
    /// instance with its own field tail.
    fn write_raw(
        &mut self,
        ctx: &RbContext,
        type_byte: u8,
        content: &[u8],
        flags: Option<u8>,
        metadata: &RbFields,
    ) -> (r: usize)
        requires
            old(self).wf(ctx@),
            fields_ok(metadata@, ctx@.len() as int),
        ensures
            emitted(
                *old(self),
                *final(self),
                ctx@,
                (
                    spec_head(type_byte, content@, flags) + spec_write_pairs(
                        ctx@,
                        metadata@,
                        old(self).state(),
                    ).0,
                    spec_write_pairs(ctx@, metadata@, old(self).state()).1,
                ),
                r,
            ),
        decreases spec_unwritten(ctx@, old(self).state()), ctx@.len() + 3, 0int,
    {
        let start = self.dst.len();
        self.write_head(type_byte, content, flags);
        self.write_pairs(ctx, metadata);
        assert(self.dst@ =~= old(self).dst@ + (spec_head(type_byte, content@, flags)
            + spec_write_pairs(ctx@, metadata@, old(self).state()).0));
        self.dst.len() - start
    }

    /// Writes a big integer.
    fn write_bignum(&mut self, v: &RbBigInt) -> (r: usize)
        ensures
            final(self).spec_dst() == old(self).spec_dst() + spec_write_bignum(
                v.spec_negative(),
                v.spec_bytes(),
            ),
            final(self).state() == old(self).state(),
            forall|h: Seq<Node>| old(self).wf(h) ==> final(self).wf(h),
            final(self).spec_marker() == old(self).spec_marker(),
            r == spec_write_bignum(v.spec_negative(), v.spec_bytes()).len(),
    {
        let start = self.dst.len();
        let bytes = v.to_bytes_le();
        let sign: u8 = if v.is_negative() {
            45
        } else {
            43
        };
        let odd = bytes.len() % 2 == 1;
        let words = bytes.len() / 2 + bytes.len() % 2;
        self.write_byte(T_BIGNUM);
        self.write_byte(sign);
        self.write_int(len32(words));
        append_bytes(&mut self.dst, bytes);
        if odd {
            self.dst.push(0);
        }
        proof {
            let padded = spec_padded(bytes@);
            assert(padded.len() as int / 2 == words);
            assert(self.dst@ =~= old(self).dst@ + spec_write_bignum(
                v.spec_negative(),
                v.spec_bytes(),
            ));
        }
        self.dst.len() - start
    }

    /// Writes an array: the number of its entries, and the entries.
    fn write_array(&mut self, ctx: &RbContext, items: &Vec<RbAny>) -> (r: usize)
        requires
            old(self).wf(ctx@),
            values_ok(spec_values(items@), ctx@.len() as int),
        ensures
            emitted(
                *old(self),
                *final(self),
                ctx@,
                spec_write_node(ctx@, Node::Array(spec_values(items@)), old(self).state()),
                r,
            ),
        decreases spec_unwritten(ctx@, old(self).state()), ctx@.len() + 3, 0int,
    {
        let start = self.dst.len();
        self.write_byte(T_ARRAY);
        self.write_int(len32(items.len()));
        let ghost h = ctx@;
        let ghost sv = spec_values(items@);
        let ghost d0 = self.dst@;
        let ghost goal = spec_write_items(h, sv, 0, self.state());
        assert(d0 =~= old(self).dst@ + (seq![T_ARRAY] + spec_varint(spec_len32(sv.len() as int))));
        let mut i: usize = 0;
        while i < items.len()
            invariant
                0 <= i <= items@.len(),
                h == ctx@,
                sv == spec_values(items@),
                values_ok(sv, h.len() as int),
                self.wf(h),
                start <= self.dst@.len(),
                old(self).state().objects.len() <= self.state().objects.len(),
                d0 + goal.0 == self.dst@ + spec_write_items(h, sv, i as int, self.state()).0,
                goal.1 == spec_write_items(h, sv, i as int, self.state()).1,
            decreases items@.len() - i,
        {
            let ghost dst = self.dst@;
            let ghost a = spec_write_entry(h, sv[i as int], self.state());
            let ghost b = spec_write_items(h, sv, i as int + 1, a.1);
            assert(value_ok(sv[i as int], h.len() as int));
            self.write_entry(ctx, &items[i]);
            assert(dst + (a.0 + b.0) =~= (dst + a.0) + b.0);
            i = i + 1;
        }
        proof {
            assert(self.dst@ + Seq::<u8>::empty() =~= self.dst@);
            assert(self.dst@ =~= old(self).dst@ + (seq![T_ARRAY] + spec_varint(
                spec_len32(sv.len() as int),
            ) + goal.0));
        }
        self.dst.len() - start
    }

    /// Writes a field tail: the number of fields, and for each field its
    /// symbol and its value.
    fn write_pairs(&mut self, ctx: &RbContext, pairs: &RbFields) -> (r: usize)
        requires
            old(self).wf(ctx@),
            fields_ok(pairs@, ctx@.len() as int),
        ensures
            emitted(
                *old(self),
                *final(self),
                ctx@,
                spec_write_pairs(ctx@, pairs@, old(self).state()),
                r,
            ),
        decreases spec_unwritten(ctx@, old(self).state()), ctx@.len() + 2, 0int,
    {
        let start = self.dst.len();
        let n = pairs.len();
        self.write_int(len32(n));
        let ghost h = ctx@;
        let ghost sv = pairs@;
        let ghost d0 = self.dst@;
        let ghost goal = spec_write_fields(h, sv, 0, self.state());
        let mut i: usize = 0;
        while i < n
            invariant
                0 <= i <= n,
                n == sv.len(),
                h == ctx@,
                sv == pairs@,
                fields_ok(sv, h.len() as int),
                self.wf(h),
                start <= self.dst@.len(),
                old(self).state().objects.len() <= self.state().objects.len(),
                d0 + goal.0 == self.dst@ + spec_write_fields(h, sv, i as int, self.state()).0,
                goal.1 == spec_write_fields(h, sv, i as int, self.state()).1,
            decreases n - i,
        {
            let ghost dst = self.dst@;
            let ghost k = spec_write_symbol(sv[i as int].0, self.state());
            let ghost v = spec_write_entry(h, sv[i as int].1, k.1);
            let ghost b = spec_write_fields(h, sv, i as int + 1, v.1);
            assert(value_ok(sv[i as int].1, h.len() as int));
            match pairs.get_index(i) {
                Some((key, val)) => {
                    self.write_symbol(key);
                    self.write_entry(ctx, val);
                },
                None => {},
            }
            assert(dst + (k.0 + v.0 + b.0) =~= (dst + k.0 + v.0) + b.0);
            i = i + 1;
        }
        proof {
            assert(self.dst@ + Seq::<u8>::empty() =~= self.dst@);
            assert(self.dst@ =~= old(self).dst@ + (spec_varint(spec_len32(sv.len() as int))
                + goal.0));
        }
        self.dst.len() - start
    }

    /// Writes an object or a struct: the tag, the name of its class and its
    /// fields.
    fn write_object(&mut self, ctx: &RbContext, obj: &RbObject, type_byte: u8) -> (r: usize)
        requires
            old(self).wf(ctx@),
            fields_ok(obj.fields@, ctx@.len() as int),
        ensures
            emitted(
                *old(self),
                *final(self),
                ctx@,
                (
                    seq![type_byte] + spec_write_object(
                        ctx@,
                        obj.name@,
                        obj.fields@,
                        old(self).state(),
                    ).0,
                    spec_write_object(ctx@, obj.name@, obj.fields@, old(self).state()).1,
                ),
                r,
            ),
        decreases spec_unwritten(ctx@, old(self).state()), ctx@.len() + 3, 0int,
    {
        let start = self.dst.len();
        self.write_byte(type_byte);
        self.write_symbol(&obj.name);
        self.write_pairs(ctx, &obj.fields);
        proof {
            let n = spec_write_symbol(obj.name@, old(self).state());
            let b = spec_write_pairs(ctx@, obj.fields@, n.1);
            assert(self.dst@ =~= old(self).dst@ + (seq![type_byte] + (n.0 + b.0)));
        }
        self.dst.len() - start
    }

    /// Writes an envelope: the tag, the name, and one entry.
    fn write_typed_data(
        &mut self,
        ctx: &RbContext,
        name: &RbSymbol,
        data: &RbAny,
        type_byte: u8,
    ) -> (r: usize)
        requires
            old(self).wf(ctx@),
            value_ok(data@, ctx@.len() as int),
        ensures
            emitted(
                *old(self),
                *final(self),
                ctx@,
                spec_write_typed_data(ctx@, name@, data@, type_byte, old(self).state()),
                r,
            ),
        decreases spec_unwritten(ctx@, old(self).state()), ctx@.len() + 3, 0int,
    {
        let start = self.dst.len();
        self.write_byte(type_byte);
        self.write_symbol(name);
        self.write_entry(ctx, data);
        proof {
            let n = spec_write_symbol(name@, old(self).state());
            let d = spec_write_entry(ctx@, data@, n.1);
            assert(self.dst@ =~= old(self).dst@ + (seq![type_byte] + n.0 + d.0));
        }
        self.dst.len() - start
    }

    /// Writes a hash: the tag, the number of entries, for each entry its
    /// key and its value, and the default value if the hash has one.
    fn write_hash(&mut self, ctx: &RbContext, hash: &RbHash) -> (r: usize)
        requires
            old(self).wf(ctx@),
            entries_ok(hash@, ctx@.len() as int),
            hash.spec_default() matches Some(d) ==> value_ok(d, ctx@.len() as int),
        ensures
            emitted(
                *old(self),
                *final(self),
                ctx@,
                spec_write_hash(ctx@, hash@, hash.spec_default(), old(self).state()),
                r,
            ),
        decreases spec_unwritten(ctx@, old(self).state()), ctx@.len() + 3, 0int,
    {
        let start = self.dst.len();
        let default = hash.default_value();
        let tag = if default.is_some() {
            T_HASH_DEFAULT
        } else {
            T_HASH
        };
        self.write_byte(tag);
        let n = hash.len();
        self.write_int(len32(n));
        let ghost h = ctx@;
        let ghost sv = hash@;
        let ghost d0 = self.dst@;
        let ghost goal = spec_write_entries(h, sv, 0, self.state());
        let ghost count = spec_varint(spec_len32(sv.len() as int));
        assert(d0 =~= old(self).dst@ + (seq![tag] + count));
        let mut i: usize = 0;
        while i < n
            invariant
                0 <= i <= n,
                n == sv.len(),
                h == ctx@,
                sv == hash@,
                entries_ok(sv, h.len() as int),
                self.wf(h),
                start <= self.dst@.len(),
                old(self).state().objects.len() <= self.state().objects.len(),
                d0 + goal.0 == self.dst@ + spec_write_entries(h, sv, i as int, self.state()).0,
                goal.1 == spec_write_entries(h, sv, i as int, self.state()).1,
            decreases n - i,
        {
            let ghost dst = self.dst@;
            let ghost k = spec_write_entry(h, sv[i as int].0, self.state());
            let ghost v = spec_write_entry(h, sv[i as int].1, k.1);
            let ghost b = spec_write_entries(h, sv, i as int + 1, v.1);
            assert(value_ok(sv[i as int].0, h.len() as int) && value_ok(
                sv[i as int].1,
                h.len() as int,
            ));
            match hash.get_index(i) {
                Some((key, val)) => {
                    self.write_entry(ctx, key);
                    self.write_entry(ctx, val);
                },
                None => {},
            }
            assert(dst + (k.0 + v.0 + b.0) =~= (dst + k.0 + v.0) + b.0);
            i = i + 1;
        }
        proof {
            assert(self.dst@ + Seq::<u8>::empty() =~= self.dst@);
            assert(self.dst@ =~= old(self).dst@ + (seq![tag] + count + goal.0));
        }
        match default {
            Some(d) => {
                let ghost e = spec_write_entry(h, d@, self.state());
                self.write_entry(ctx, d);
                assert(self.dst@ =~= old(self).dst@ + (seq![tag] + count + goal.0 + e.0));
            },
            None => {},
        }
        self.dst.len() - start
    }

    /// Encodes a value of a graph: appends the header and one entry, and
    /// returns the number of bytes. The tables start empty. A handle that
    /// names no object of the graph can not be written: nothing is appended
    /// then, and the error names the handle.
    pub fn write(&mut self, ctx: &RbContext, data: &RbAny) -> (r: TResult<usize>)
        ensures
            match r {
                Ok(n) => {
                    &&& value_ok(data@, ctx@.len() as int)
                    &&& final(self).spec_dst() == old(self).spec_dst() + spec_encode(ctx@, data@)
                    &&& n == spec_encode(ctx@, data@).len()
                },
                Err(e) => {
                    &&& final(self).spec_dst() == old(self).spec_dst()
                    &&& !value_ok(data@, ctx@.len() as int)
                    &&& e matches ThurgoodError::BadObjectRef(i) && data@ == Value::Ref(i as int)
                },
            },
    {
        match data {
            RbAny::Ref(id) => {
                if id.index() >= ctx.len() {
                    return Err(ThurgoodError::BadObjectRef(id.index()));
                }
            },
            _ => {},
        }
        let start = self.dst.len();
        self.reset(ctx);
        self.write_byte(4);
        self.write_byte(8);
        self.write_entry(ctx, data);
        assert(self.dst@ =~= old(self).dst@ + spec_encode(ctx@, data@));
        Ok(self.dst.len() - start)
    }
}

/// Encodes a value of a graph and appends the bytes to `dst`: the header
/// and one entry. Returns the number of bytes appended.
pub fn to_writer(dst: &mut Vec<u8>, ctx: &RbContext, value: &RbAny) -> (r: TResult<usize>)
    ensures
        match r {
            Ok(n) => {
                &&& value_ok(value@, ctx@.len() as int)
                &&& final(dst)@ == old(dst)@ + spec_encode(ctx@, value@)
                &&& n == spec_encode(ctx@, value@).len()
            },
            Err(e) => {
                &&& final(dst)@ == old(dst)@
                &&& !value_ok(value@, ctx@.len() as int)
                &&& e matches ThurgoodError::BadObjectRef(i) && value@ == Value::Ref(i as int)
            },
        },
{
    let mut buf: Vec<u8> = Vec::new();
    std::mem::swap(dst, &mut buf);
    let mut wr = RbWriter::new(buf);
    let r = wr.write(ctx, value);
    let mut out = wr.into_inner();
    std::mem::swap(dst, &mut out);
    r
}

} // verus!
