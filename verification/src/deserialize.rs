//! The reader: from bytes to a graph.

use vstd::prelude::*;
use vstd::slice::{slice_subrange, slice_to_vec};
use vstd::utf8::{decode_utf8, valid_utf8};
use crate::bigint::RbBigInt;
use crate::consts::{
    T_TRUE, T_FALSE, T_NIL, T_INT, T_SYMBOL, T_SYMBOL_REF, T_OBJECT_REF, T_INSTANCE, T_ARRAY,
    T_BIGNUM, T_CLASS, T_MODULE, T_CLASS_MODULE, T_DATA, T_FLOAT, T_HASH, T_HASH_DEFAULT,
    T_OBJECT, T_REGEX, T_STRING, T_STRUCT, T_USER_CLASS, T_USER_DEFINED, T_USER_MARSHAL,
    T_EXTENDED,
};
use crate::context::{
    entries_ok, fields_ok, lemma_entries_ok_grows, lemma_entries_ok_insert,
    lemma_fields_ok_grows, lemma_fields_ok_insert, lemma_values_ok_grows, node_ok, value_ok,
    values_ok, RbContext,
};
use crate::error::{TResult, ThurgoodError};
use crate::fields::RbFields;
use crate::float::{until_nul, RbFloat};
use crate::hash::RbHash;
use crate::node::{spec_values, Node, RbRef};
use crate::object::{spec_extend, RbClass, RbObject, RbUserData};
use crate::rb_type::RbType;
use crate::symbol::{str_from_utf8, RbSymbol};
use crate::value::{RbAny, RefId, Value};
use crate::varint::{spec_read_int, varint_decode};
use crate::wire::{
    spec_as_array, spec_count, spec_decode, spec_decode_counted, spec_is_utf8, spec_placeholder,
    spec_plain, spec_read_array, spec_read_default, spec_read_instance_object,
    spec_read_instance_regex, spec_read_instance_string, spec_read_bignum, spec_read_byte,
    spec_read_class, spec_read_entries, spec_read_entry, spec_read_entry_symbol,
    spec_read_float, spec_read_hash, spec_read_instance, spec_read_items, spec_read_len_bytes,
    spec_read_object, spec_read_object_ref, spec_read_pairs, spec_read_payload, spec_read_ref,
    spec_read_regex, spec_read_string, spec_read_symbol, spec_read_symbol_ref, spec_read_tail,
    spec_read_text, spec_read_user_data, spec_start, spec_text, Parsed, ReadState,
};

verus! {

/// The string that UTF-8 bytes spell; `Utf8` if the bytes are not UTF-8.
pub fn bytes_to_string(buf: &[u8]) -> (r: TResult<String>)
    ensures
        match r {
            Ok(s) => valid_utf8(buf@) && s@ == decode_utf8(buf@),
            Err(e) => !valid_utf8(buf@) && e == ThurgoodError::Utf8,
        },
{
    match str_from_utf8(buf) {
        Some(s) => Ok(s.to_owned()),
        None => Err(ThurgoodError::Utf8),
    }
}

/// A 32-bit integer as a count or an index.
fn count_of(v: i32) -> (r: usize)
    ensures
        r == spec_count(v),
{
    #[verifier::truncate]
    (v as usize)
}

/// The models of the symbols of a table.
pub open spec fn spec_symbols(symbols: Seq<RbSymbol>) -> Seq<Seq<u8>> {
    Seq::new(symbols.len(), |i: int| symbols[i]@)
}

/// The places that the handles of a table name.
pub open spec fn spec_handles(objects: Seq<RefId>) -> Seq<int> {
    Seq::new(objects.len(), |i: int| objects[i]@)
}

/// Every place of the table is one of the graph.
pub open spec fn handles_ok(objects: Seq<int>, len: int) -> bool {
    forall|i: int| 0 <= i < objects.len() ==> 0 <= #[trigger] objects[i] < len
}

/// Decodes one stream. It holds the bytes, the position in them, the graph
/// under construction, the symbol table and the object table.
pub struct RbReader {
    src: Vec<u8>,
    pos: usize,
    ctx: RbContext,
    symbols: Vec<RbSymbol>,
    objects: Vec<RefId>,
    sym_e: RbSymbol,
    /// Whether a bare string that is not UTF-8 is kept as bytes. Without
    /// this, such a string ends the decoding with `Utf8`.
    pub allow_bin_strings: bool,
}

/// A step of the reader went as the definition of decoding says: on
/// success the result, the position and the state of the reader are those
/// of the definition, and on failure the error is.
pub open spec fn agrees<X: View>(
    before: RbReader,
    after: RbReader,
    want: Parsed<X::V>,
    got: TResult<X>,
) -> bool {
    match want {
        Ok((v, p, st)) => {
            &&& got matches Ok(x) && x@ == v
            &&& after.spec_pos() == p
            &&& after.state() == st
            &&& after.spec_src() == before.spec_src()
            &&& after.spec_lax() == before.spec_lax()
            &&& after.wf()
            &&& before.spec_pos() <= p
            &&& before.state().heap.len() <= st.heap.len()
        },
        Err(e) => got matches Err(g) && g == e,
    }
}

impl RbReader {
    /// The bytes to decode.
    pub closed spec fn spec_src(&self) -> Seq<u8> {
        self.src@
    }

    /// Whether the reader keeps bare strings that are not UTF-8.
    pub closed spec fn spec_lax(&self) -> bool {
        self.allow_bin_strings
    }

    /// The position of the next byte to read.
    pub closed spec fn spec_pos(&self) -> int {
        self.pos as int
    }

    /// The graph and the two tables.
    pub closed spec fn state(&self) -> ReadState {
        ReadState {
            heap: self.ctx@,
            symbols: spec_symbols(self.symbols@),
            objects: spec_handles(self.objects@),
        }
    }

    /// The reader is in order: the position is within the bytes, and the
    /// object table names objects of the graph.
    pub closed spec fn wf(&self) -> bool {
        &&& self.pos <= self.src@.len()
        &&& handles_ok(spec_handles(self.objects@), self.ctx@.len() as int)
        &&& self.sym_e@ == seq![69u8]
    }

    /// A reader at the start of the given bytes, with empty tables.
    pub fn new(src: Vec<u8>) -> (r: RbReader)
        ensures
            r.wf(),
            r.spec_src() == src@,
            r.spec_pos() == 0,
            r.state() == spec_start(),
            !r.spec_lax(),
    {
        let mut e: Vec<u8> = Vec::new();
        e.push(69);
        let r = RbReader {
            src,
            pos: 0,
            ctx: RbContext::new(),
            symbols: Vec::new(),
            objects: Vec::new(),
            sym_e: RbSymbol::new(e),
            allow_bin_strings: false,
        };
        proof {
            assert(r.sym_e@ =~= seq![69u8]);
            assert(spec_symbols(r.symbols@) =~= Seq::<Seq<u8>>::empty());
            assert(spec_handles(r.objects@) =~= Seq::<int>::empty());
        }
        r
    }

    /// A reader at the start of the given bytes, with empty tables, that
    /// keeps a bare string that is not UTF-8 as bytes.
    pub fn new_loose(src: Vec<u8>) -> (r: RbReader)
        ensures
            r.wf(),
            r.spec_src() == src@,
            r.spec_pos() == 0,
            r.state() == spec_start(),
            r.spec_lax(),
    {
        let mut r = RbReader::new(src);
        r.allow_bin_strings = true;
        r
    }

    /// Sets whether the reader keeps a bare string that is not UTF-8 as
    /// bytes. Nothing else of the reader changes.
    pub fn set_allow_bin_strings(&mut self, allow: bool)
        ensures
            final(self).spec_lax() == allow,
            final(self).spec_src() == old(self).spec_src(),
            final(self).spec_pos() == old(self).spec_pos(),
            final(self).state() == old(self).state(),
            final(self).wf() == old(self).wf(),
    {
        self.allow_bin_strings = allow;
    }

    /// Reads one byte.
    fn read_byte(&mut self) -> (r: TResult<u8>)
        requires
            old(self).wf(),
        ensures
            agrees(
                *old(self),
                *final(self),
                spec_plain(
                    spec_read_byte(old(self).spec_src(), old(self).spec_pos()),
                    old(self).state(),
                ),
                r,
            ),
    {
        if self.pos < self.src.len() {
            let b = self.src[self.pos];
            self.pos = self.pos + 1;
            Ok(b)
        } else {
            Err(ThurgoodError::IO)
        }
    }

    /// Reads a variable-length integer. This reads no tag byte: the format
    /// uses these integers in many places.
    pub fn read_int(&mut self) -> (r: TResult<i32>)
        requires
            old(self).wf(),
        ensures
            agrees(
                *old(self),
                *final(self),
                spec_plain(
                    spec_read_int(old(self).spec_src(), old(self).spec_pos()),
                    old(self).state(),
                ),
                r,
            ),
    {
        match varint_decode(self.src.as_slice(), self.pos) {
            Ok((v, end)) => {
                self.pos = end;
                Ok(v)
            },
            Err(e) => Err(e),
        }
    }

    /// Reads a length, and then that many bytes.
    fn read_len_bytes(&mut self) -> (r: TResult<Vec<u8>>)
        requires
            old(self).wf(),
        ensures
            agrees(
                *old(self),
                *final(self),
                spec_plain(
                    spec_read_len_bytes(old(self).spec_src(), old(self).spec_pos()),
                    old(self).state(),
                ),
                r,
            ),
    {
        let n = count_of(self.read_int()?);
        if n > self.src.len() - self.pos {
            return Err(ThurgoodError::IO);
        }
        let end = self.pos + n;
        let data = slice_to_vec(slice_subrange(self.src.as_slice(), self.pos, end));
        self.pos = end;
        Ok(data)
    }

    /// Reads the name of a class or module: a length and that many bytes of
    /// UTF-8.
    fn read_class_mod_ref(&mut self) -> (r: TResult<String>)
        requires
            old(self).wf(),
        ensures
            agrees(
                *old(self),
                *final(self),
                spec_plain(
                    spec_read_text(old(self).spec_src(), old(self).spec_pos()),
                    old(self).state(),
                ),
                r,
            ),
    {
        proof {
            reveal(spec_text);
        }
        let buf = self.read_len_bytes()?;
        bytes_to_string(buf.as_slice())
    }

    /// Takes the next place of the graph and of the object table for an
    /// object whose payload is about to be read. Until the payload is
    /// there, a placeholder stands in the place.
    fn alloc_object(&mut self) -> (id: RefId)
        requires
            old(self).wf(),
        ensures
            final(self).wf(),
            id@ == old(self).state().heap.len(),
            final(self).state() == (ReadState {
                heap: old(self).state().heap.push(spec_placeholder()),
                symbols: old(self).state().symbols,
                objects: old(self).state().objects.push(old(self).state().heap.len() as int),
            }),
            final(self).spec_pos() == old(self).spec_pos(),
            final(self).spec_src() == old(self).spec_src(),
            final(self).spec_lax() == old(self).spec_lax(),
    {
        let ghost before = self.state();
        let id = self.ctx.push(RbRef::Float(RbFloat::one()));
        self.objects.push(id);
        proof {
            assert(spec_handles(self.objects@) =~= before.objects.push(before.heap.len() as int));
        }
        id
    }

    /// Puts the object that was read in the place that was taken for it,
    /// and returns its handle. Whoever holds the handle already, holds the
    /// object from now on.
    fn set_object(&mut self, id: RefId, obj: RbRef) -> (r: RbAny)
        requires
            old(self).wf(),
            0 <= id@ < old(self).state().heap.len(),
            node_ok(obj@, old(self).state().heap.len() as int, id@),
        ensures
            final(self).wf(),
            r@ == Value::Ref(id@),
            final(self).state() == (ReadState {
                heap: old(self).state().heap.update(id@, obj@),
                symbols: old(self).state().symbols,
                objects: old(self).state().objects,
            }),
            final(self).spec_pos() == old(self).spec_pos(),
            final(self).spec_src() == old(self).spec_src(),
            final(self).spec_lax() == old(self).spec_lax(),
    {
        self.ctx.put(id, obj);
        RbAny::Ref(id)
    }

    /// Reads a new symbol (the tag is read already).
    fn read_symbol(&mut self) -> (r: TResult<RbAny>)
        requires
            old(self).wf(),
        ensures
            agrees(
                *old(self),
                *final(self),
                spec_read_symbol(old(self).spec_src(), old(self).spec_pos(), old(self).state()),
                r,
            ),
            r matches Ok(v) ==> v@ is Symbol,
    {
        let ghost before = self.state();
        let buf = self.read_len_bytes()?;
        let sym = RbSymbol::new(buf);
        self.symbols.push(sym.clone());
        proof {
            assert(spec_symbols(self.symbols@) =~= before.symbols.push(sym@));
        }
        Ok(RbAny::Symbol(sym))
    }

    /// Reads a reference to a symbol (the tag is read already).
    fn read_symbol_ref(&mut self) -> (r: TResult<RbAny>)
        requires
            old(self).wf(),
        ensures
            agrees(
                *old(self),
                *final(self),
                spec_read_symbol_ref(old(self).spec_src(), old(self).spec_pos(), old(self).state()),
                r,
            ),
            r matches Ok(v) ==> v@ is Symbol,
    {
        let index = count_of(self.read_int()?);
        if index < self.symbols.len() {
            Ok(RbAny::Symbol(self.symbols[index].clone()))
        } else {
            Err(ThurgoodError::BadSymbolRef(index))
        }
    }

    /// Reads a reference to an object (the tag is read already). The object
    /// may be one whose payload is still being read.
    fn read_object_ref(&mut self) -> (r: TResult<RbAny>)
        requires
            old(self).wf(),
        ensures
            agrees(
                *old(self),
                *final(self),
                spec_read_object_ref(old(self).spec_src(), old(self).spec_pos(), old(self).state()),
                r,
            ),
            r matches Ok(v) ==> value_ok(v@, final(self).state().heap.len() as int),
    {
        let index = count_of(self.read_int()?);
        if index < self.objects.len() {
            let id = self.objects[index];
            assert(spec_handles(self.objects@)[index as int] == id@);
            Ok(RbAny::Ref(id))
        } else {
            Err(ThurgoodError::BadObjectRef(index))
        }
    }

    /// Reads one entry: a tag byte and what the tag calls for.
    fn read_entry(&mut self) -> (r: TResult<RbAny>)
        requires
            old(self).wf(),
        ensures
            agrees(
                *old(self),
                *final(self),
                spec_read_entry(
                    old(self).spec_src(),
                    old(self).spec_pos(),
                    old(self).state(),
                    old(self).spec_lax(),
                ),
                r,
            ),
            r matches Ok(v) ==> value_ok(v@, final(self).state().heap.len() as int)
                && old(self).spec_pos() < final(self).spec_pos() <= final(self).spec_src().len(),
        decreases old(self).spec_src().len() - old(self).spec_pos(), 0int,
    {
        let c = self.read_byte()?;
        if c == T_TRUE {
            Ok(RbAny::True)
        } else if c == T_FALSE {
            Ok(RbAny::False)
        } else if c == T_NIL {
            Ok(RbAny::Nil)
        } else if c == T_INT {
            Ok(RbAny::Int(self.read_int()?))
        } else if c == T_SYMBOL {
            self.read_symbol()
        } else if c == T_SYMBOL_REF {
            self.read_symbol_ref()
        } else if c == T_OBJECT_REF {
            self.read_object_ref()
        } else {
            self.read_ref(c)
        }
    }

    /// Reads what follows the tag of an object, and returns the handle of
    /// the object.
    fn read_ref(&mut self, type_byte: u8) -> (r: TResult<RbAny>)
        requires
            old(self).wf(),
        ensures
            agrees(
                *old(self),
                *final(self),
                spec_read_ref(
                    old(self).spec_src(),
                    old(self).spec_pos(),
                    old(self).state(),
                    old(self).spec_lax(),
                    type_byte,
                ),
                r,
            ),
            r matches Ok(v) ==> value_ok(v@, final(self).state().heap.len() as int),
        decreases old(self).spec_src().len() - old(self).spec_pos(), 7int,
    {
        proof {
            reveal(spec_read_payload);
        }
        if type_byte == T_EXTENDED {
            let c = self.read_rb_class()?;
            let id = self.ctx.push(RbRef::Extended { module: c.name, object: c.data });
            Ok(RbAny::Ref(id))
        } else {
            let id = self.alloc_object();
            let obj = self.read_payload(type_byte)?;
            Ok(self.set_object(id, obj))
        }
    }

    /// Reads the payload of an object with the given tag.
    #[verifier::rlimit(40)]
    fn read_payload(&mut self, type_byte: u8) -> (r: TResult<RbRef>)
        requires
            old(self).wf(),
        ensures
            agrees(
                *old(self),
                *final(self),
                spec_read_payload(
                    old(self).spec_src(),
                    old(self).spec_pos(),
                    old(self).state(),
                    old(self).spec_lax(),
                    type_byte,
                ),
                r,
            ),
            r matches Ok(n) ==> node_ok(n@, final(self).state().heap.len() as int, 0) && !(n@ is Extended),
        decreases old(self).spec_src().len() - old(self).spec_pos(), 6int,
    {
        proof {
            reveal(spec_read_payload);
            reveal(spec_read_instance);
        }
        if type_byte == T_INSTANCE {
            self.read_instance()
        } else if type_byte == T_ARRAY {
            self.read_array()
        } else if type_byte == T_BIGNUM {
            self.read_bignum()
        } else if type_byte == T_CLASS {
            Ok(RbRef::ClassRef(self.read_class_mod_ref()?))
        } else if type_byte == T_MODULE {
            Ok(RbRef::ModuleRef(self.read_class_mod_ref()?))
        } else if type_byte == T_CLASS_MODULE {
            Ok(RbRef::ClassModuleRef(self.read_class_mod_ref()?))
        } else if type_byte == T_DATA {
            Ok(RbRef::Data(self.read_rb_class()?))
        } else if type_byte == T_FLOAT {
            self.read_float()
        } else if type_byte == T_HASH {
            self.read_hash(false)
        } else if type_byte == T_HASH_DEFAULT {
            self.read_hash(true)
        } else if type_byte == T_REGEX {
            self.read_regex()
        } else if type_byte == T_STRING {
            self.read_string()
        } else if type_byte == T_OBJECT {
            Ok(RbRef::Object(self.read_rb_object()?))
        } else if type_byte == T_STRUCT {
            Ok(RbRef::Struct(self.read_rb_object()?))
        } else if type_byte == T_USER_CLASS {
            self.read_user_class()
        } else if type_byte == T_USER_DEFINED {
            self.read_user_data()
        } else if type_byte == T_USER_MARSHAL {
            Ok(RbRef::UserMarshal(self.read_rb_class()?))
        } else {
            Err(ThurgoodError::BadTypeByte(type_byte))
        }
    }

    /// Reads the next entry, tag included, which must be a symbol.
    fn read_entry_symbol(&mut self) -> (r: TResult<RbSymbol>)
        requires
            old(self).wf(),
        ensures
            agrees(
                *old(self),
                *final(self),
                spec_read_entry_symbol(
                    old(self).spec_src(),
                    old(self).spec_pos(),
                    old(self).state(),
                    old(self).spec_lax(),
                ),
                r,
            ),
            r is Ok ==> old(self).spec_pos() < final(self).spec_pos() <= final(self).spec_src().len(),
        decreases old(self).spec_src().len() - old(self).spec_pos(), 1int,
    {
        let r = self.read_entry()?;
        match r {
            RbAny::Symbol(s) => Ok(s),
            _ => Err(
                ThurgoodError::UnexpectedType {
                    expected: RbType::Symbol,
                    found: r.get_type(&self.ctx),
                },
            ),
        }
    }

    /// Reads an instance: a string, a regex or an object, and a field tail.
    fn read_instance(&mut self) -> (r: TResult<RbRef>)
        requires
            old(self).wf(),
        ensures
            agrees(
                *old(self),
                *final(self),
                spec_read_instance(
                    old(self).spec_src(),
                    old(self).spec_pos(),
                    old(self).state(),
                    old(self).spec_lax(),
                ),
                r,
            ),
            r matches Ok(n) ==> node_ok(n@, final(self).state().heap.len() as int, 0) && !(n@ is Extended),
        decreases old(self).spec_src().len() - old(self).spec_pos(), 5int,
    {
        proof {
            reveal(spec_read_instance);
        }
        let type_byte = self.read_byte()?;
        if type_byte == T_OBJECT {
            self.read_instance_object()
        } else if type_byte == T_STRING {
            self.read_instance_string()
        } else if type_byte == T_REGEX {
            self.read_instance_regex()
        } else {
            Err(ThurgoodError::BadInstanceType(type_byte))
        }
    }

    /// Reads an object and the field tail that an instance adds to it.
    fn read_instance_object(&mut self) -> (r: TResult<RbRef>)
        requires
            old(self).wf(),
        ensures
            agrees(
                *old(self),
                *final(self),
                spec_read_instance_object(
                    old(self).spec_src(),
                    old(self).spec_pos(),
                    old(self).state(),
                    old(self).spec_lax(),
                ),
                r,
            ),
            r matches Ok(n) ==> node_ok(n@, final(self).state().heap.len() as int, 0) && !(n@ is Extended),
        decreases old(self).spec_src().len() - old(self).spec_pos(), 4int,
    {
        let mut obj = self.read_rb_object()?;
        let ghost mid = self.state().heap.len() as int;
        let ghost own = obj.fields@;
        let pairs = self.read_tail()?;
        proof {
            lemma_fields_ok_grows(own, mid, self.state().heap.len() as int);
            lemma_extend_ok(own, pairs@, pairs@.len() as int, self.state().heap.len() as int);
        }
        obj.extend_from_pairs(&pairs);
        Ok(RbRef::Object(obj))
    }

    /// Reads a string and its field tail.
    fn read_instance_string(&mut self) -> (r: TResult<RbRef>)
        requires
            old(self).wf(),
        ensures
            agrees(
                *old(self),
                *final(self),
                spec_read_instance_string(
                    old(self).spec_src(),
                    old(self).spec_pos(),
                    old(self).state(),
                    old(self).spec_lax(),
                ),
                r,
            ),
            r matches Ok(n) ==> node_ok(n@, final(self).state().heap.len() as int, 0) && !(n@ is Extended),
        decreases old(self).spec_src().len() - old(self).spec_pos(), 4int,
    {
        proof {
            reveal(spec_text);
        }
        let data = self.read_len_bytes()?;
        let pairs = self.read_tail()?;
        if self.is_utf8(&pairs) {
            Ok(RbRef::Str(bytes_to_string(data.as_slice())?))
        } else {
            Ok(RbRef::StrI { content: data, metadata: pairs })
        }
    }

    /// Reads a regex and its field tail.
    fn read_instance_regex(&mut self) -> (r: TResult<RbRef>)
        requires
            old(self).wf(),
        ensures
            agrees(
                *old(self),
                *final(self),
                spec_read_instance_regex(
                    old(self).spec_src(),
                    old(self).spec_pos(),
                    old(self).state(),
                    old(self).spec_lax(),
                ),
                r,
            ),
            r matches Ok(n) ==> node_ok(n@, final(self).state().heap.len() as int, 0) && !(n@ is Extended),
        decreases old(self).spec_src().len() - old(self).spec_pos(), 4int,
    {
        proof {
            reveal(spec_text);
        }
        let data = self.read_len_bytes()?;
        let flags = self.read_byte()? as u32;
        let pairs = self.read_tail()?;
        if self.is_utf8(&pairs) {
            Ok(RbRef::Regex { content: bytes_to_string(data.as_slice())?, flags })
        } else {
            Ok(RbRef::RegexI { content: data, flags, metadata: pairs })
        }
    }

    /// Whether the fields mark a string as UTF-8: whether they hold the
    /// symbol `E` with the value true.
    fn is_utf8(&self, pairs: &RbFields) -> (r: bool)
        requires
            self.wf(),
        ensures
            r == spec_is_utf8(pairs@),
    {
        let n = pairs.len();
        let mut i: usize = 0;
        while i < n
            invariant
                0 <= i <= n,
                n == pairs@.len(),
                self.wf(),
                forall|j: int| 0 <= j < i ==> #[trigger] pairs@[j] != (seq![69u8], Value::True),
            decreases n - i,
        {
            match pairs.get_index(i) {
                Some((k, v)) => {
                    if k.same(&self.sym_e) && v.same(&RbAny::True) {
                        assert(pairs@[i as int] == (seq![69u8], Value::True));
                        return true;
                    }
                },
                None => {},
            }
            i = i + 1;
        }
        false
    }

    /// Reads a bare string.
    fn read_string(&mut self) -> (r: TResult<RbRef>)
        requires
            old(self).wf(),
        ensures
            agrees(
                *old(self),
                *final(self),
                spec_plain(
                    spec_read_string(
                        old(self).spec_src(),
                        old(self).spec_pos(),
                        old(self).spec_lax(),
                    ),
                    old(self).state(),
                ),
                r,
            ),
            r matches Ok(n) ==> node_ok(n@, final(self).state().heap.len() as int, 0) && !(n@ is Extended),
    {
        proof {
            reveal(spec_text);
        }
        let data = self.read_len_bytes()?;
        match str_from_utf8(data.as_slice()) {
            Some(s) => Ok(RbRef::Str(s.to_owned())),
            None => if self.allow_bin_strings {
                let r = RbRef::StrI { content: data, metadata: RbFields::new() };
                assert(fields_ok(Seq::<(Seq<u8>, Value)>::empty(), self.state().heap.len() as int));
                Ok(r)
            } else {
                Err(ThurgoodError::Utf8)
            },
        }
    }

    /// Reads a field tail: a count and that many fields.
    fn read_tail(&mut self) -> (r: TResult<RbFields>)
        requires
            old(self).wf(),
        ensures
            agrees(
                *old(self),
                *final(self),
                spec_read_tail(
                    old(self).spec_src(),
                    old(self).spec_pos(),
                    old(self).state(),
                    old(self).spec_lax(),
                ),
                r,
            ),
            r matches Ok(f) ==> fields_ok(f@, final(self).state().heap.len() as int),
            r is Ok ==> old(self).spec_pos() < final(self).spec_pos() <= final(self).spec_src().len(),
        decreases old(self).spec_src().len() - old(self).spec_pos(), 2int,
    {
        let count = count_of(self.read_int()?);
        self.read_pairs(count)
    }

    /// Reads `count` fields: each a symbol and an entry.
    fn read_pairs(&mut self, count: usize) -> (r: TResult<RbFields>)
        requires
            old(self).wf(),
        ensures
            agrees(
                *old(self),
                *final(self),
                spec_read_pairs(
                    old(self).spec_src(),
                    old(self).spec_pos(),
                    old(self).state(),
                    old(self).spec_lax(),
                    count as int,
                    Seq::empty(),
                ),
                r,
            ),
            r matches Ok(f) ==> fields_ok(f@, final(self).state().heap.len() as int),
            r is Ok ==> final(self).spec_pos() <= final(self).spec_src().len(),
        decreases old(self).spec_src().len() - old(self).spec_pos(), 1int,
    {
        let mut result = RbFields::new();
        let mut i: usize = 0;
        let ghost want = spec_read_pairs(
            self.spec_src(),
            self.spec_pos(),
            self.state(),
            self.spec_lax(),
            count as int,
            Seq::empty(),
        );
        assert(fields_ok(result@, self.state().heap.len() as int));
        while i < count
            invariant
                0 <= i <= count,
                self.wf(),
                self.spec_src() == old(self).spec_src(),
                self.spec_lax() == old(self).spec_lax(),
                old(self).spec_pos() <= self.spec_pos() <= self.spec_src().len(),
                old(self).state().heap.len() <= self.state().heap.len(),
                fields_ok(result@, self.state().heap.len() as int),
                want == spec_read_pairs(
                    old(self).spec_src(),
                    old(self).spec_pos(),
                    old(self).state(),
                    old(self).spec_lax(),
                    count as int,
                    Seq::empty(),
                ),
                want == spec_read_pairs(
                    self.spec_src(),
                    self.spec_pos(),
                    self.state(),
                    self.spec_lax(),
                    count - i,
                    result@,
                ),
            decreases count - i,
        {
            let key = self.read_entry()?;
            let key_sym = match key {
                RbAny::Symbol(s) => s,
                _ => {
                    return Err(
                        ThurgoodError::UnexpectedType {
                            expected: RbType::Symbol,
                            found: key.get_type(&self.ctx),
                        },
                    );
                },
            };
            let ghost mid = self.state().heap.len() as int;
            let val = self.read_entry()?;
            proof {
                lemma_fields_ok_grows(result@, mid, self.state().heap.len() as int);
                lemma_fields_ok_insert(result@, key_sym@, val@, self.state().heap.len() as int);
            }
            result.insert(key_sym, val);
            i = i + 1;
        }
        Ok(result)
    }

    /// Reads the body of an array: a count and that many entries.
    fn read_array(&mut self) -> (r: TResult<RbRef>)
        requires
            old(self).wf(),
        ensures
            agrees(
                *old(self),
                *final(self),
                spec_read_array(
                    old(self).spec_src(),
                    old(self).spec_pos(),
                    old(self).state(),
                    old(self).spec_lax(),
                ),
                r,
            ),
            r matches Ok(n) ==> node_ok(n@, final(self).state().heap.len() as int, 0) && !(n@ is Extended),
        decreases old(self).spec_src().len() - old(self).spec_pos(), 3int,
    {
        let array_size = self.read_int()?;
        let mut data: Vec<RbAny> = Vec::new();
        let mut i: i32 = 0;
        let ghost want = spec_read_items(
            self.spec_src(),
            self.spec_pos(),
            self.state(),
            self.spec_lax(),
            array_size as int,
            Seq::empty(),
        );
        assert(spec_values(data@) =~= Seq::<Value>::empty());
        while i < array_size
            invariant
                0 <= i,
                array_size > 0 ==> i <= array_size,
                self.wf(),
                self.spec_src() == old(self).spec_src(),
                self.spec_lax() == old(self).spec_lax(),
                old(self).spec_pos() < self.spec_pos() <= self.spec_src().len(),
                old(self).state().heap.len() <= self.state().heap.len(),
                values_ok(spec_values(data@), self.state().heap.len() as int),
                spec_read_array(
                    old(self).spec_src(),
                    old(self).spec_pos(),
                    old(self).state(),
                    old(self).spec_lax(),
                ) == spec_as_array(want),
                want == spec_read_items(
                    self.spec_src(),
                    self.spec_pos(),
                    self.state(),
                    self.spec_lax(),
                    array_size - i,
                    spec_values(data@),
                ),
            decreases array_size - i,
        {
            let ghost mid = self.state().heap.len() as int;
            let ghost sofar = spec_values(data@);
            let v = self.read_entry()?;
            proof {
                lemma_values_ok_grows(sofar, mid, self.state().heap.len() as int);
            }
            data.push(v);
            proof {
                assert(spec_values(data@) =~= sofar.push(v@));
            }
            i = i + 1;
        }
        Ok(RbRef::Array(data))
    }

    /// Reads the body of a big integer.
    fn read_bignum(&mut self) -> (r: TResult<RbRef>)
        requires
            old(self).wf(),
        ensures
            agrees(
                *old(self),
                *final(self),
                spec_plain(
                    spec_read_bignum(old(self).spec_src(), old(self).spec_pos()),
                    old(self).state(),
                ),
                r,
            ),
            r matches Ok(n) ==> node_ok(n@, final(self).state().heap.len() as int, 0) && !(n@ is Extended),
    {
        let c_sign = self.read_byte()?;
        let words = count_of(self.read_int()?);
        if words > (self.src.len() - self.pos) / 2 {
            return Err(ThurgoodError::IO);
        }
        let end = self.pos + 2 * words;
        let v = RbBigInt::from_bytes_le(
            c_sign != 43,
            slice_subrange(self.src.as_slice(), self.pos, end),
        );
        let _ = v.to_bytes_le();
        self.pos = end;
        Ok(RbRef::BigInt(v))
    }

    /// Reads the body of an envelope: a name and one entry.
    fn read_rb_class(&mut self) -> (r: TResult<RbClass>)
        requires
            old(self).wf(),
        ensures
            agrees(
                *old(self),
                *final(self),
                spec_read_class(
                    old(self).spec_src(),
                    old(self).spec_pos(),
                    old(self).state(),
                    old(self).spec_lax(),
                ),
                r,
            ),
            r matches Ok(c) ==> value_ok(c.data@, final(self).state().heap.len() as int),
        decreases old(self).spec_src().len() - old(self).spec_pos(), 3int,
    {
        let name = self.read_entry_symbol()?;
        let data = self.read_entry()?;
        Ok(RbClass { name, data })
    }

    /// Reads the body of a float: a length and that many bytes, which hold
    /// a numeral, and perhaps a zero byte and more after it.
    fn read_float(&mut self) -> (r: TResult<RbRef>)
        requires
            old(self).wf(),
        ensures
            agrees(
                *old(self),
                *final(self),
                spec_plain(
                    spec_read_float(old(self).spec_src(), old(self).spec_pos()),
                    old(self).state(),
                ),
                r,
            ),
            r matches Ok(n) ==> node_ok(n@, final(self).state().heap.len() as int, 0) && !(n@ is Extended),
    {
        proof {
            reveal(spec_read_float);
        }
        let buf = self.read_len_bytes()?;
        let text = until_nul(buf.as_slice());
        match RbFloat::parse(text.as_slice()) {
            Ok(f) => Ok(RbRef::Float(f)),
            Err(e) => if str_from_utf8(text.as_slice()).is_none() {
                Err(ThurgoodError::Utf8)
            } else {
                Err(e)
            },
        }
    }

    /// Reads the body of a hash: a count and that many pairs of entries,
    /// and one more entry, the default value, if `has_default` says so.
    fn read_hash(&mut self, has_default: bool) -> (r: TResult<RbRef>)
        requires
            old(self).wf(),
        ensures
            agrees(
                *old(self),
                *final(self),
                spec_read_hash(
                    old(self).spec_src(),
                    old(self).spec_pos(),
                    old(self).state(),
                    old(self).spec_lax(),
                    has_default,
                ),
                r,
            ),
            r matches Ok(n) ==> node_ok(n@, final(self).state().heap.len() as int, 0) && !(n@ is Extended),
        decreases old(self).spec_src().len() - old(self).spec_pos(), 3int,
    {
        let num_pairs = count_of(self.read_int()?);
        let mut nhash = RbHash::new();
        let mut i: usize = 0;
        let ghost want = spec_read_entries(
            self.spec_src(),
            self.spec_pos(),
            self.state(),
            self.spec_lax(),
            num_pairs as int,
            Seq::empty(),
        );
        let ghost q0 = self.spec_pos();
        assert(entries_ok(nhash@, self.state().heap.len() as int));
        while i < num_pairs
            invariant
                0 <= i <= num_pairs,
                self.wf(),
                self.spec_src() == old(self).spec_src(),
                self.spec_lax() == old(self).spec_lax(),
                old(self).spec_pos() < q0 <= self.spec_pos() <= self.spec_src().len(),
                old(self).state().heap.len() <= self.state().heap.len(),
                entries_ok(nhash@, self.state().heap.len() as int),
                nhash.spec_default() is None,
                spec_read_hash(
                    old(self).spec_src(),
                    old(self).spec_pos(),
                    old(self).state(),
                    old(self).spec_lax(),
                    has_default,
                ) == spec_read_default(old(self).spec_src(), q0, old(self).spec_lax(), has_default, want),
                want == spec_read_entries(
                    self.spec_src(),
                    self.spec_pos(),
                    self.state(),
                    self.spec_lax(),
                    num_pairs - i,
                    nhash@,
                ),
            decreases num_pairs - i,
        {
            let key = self.read_entry()?;
            let ghost mid = self.state().heap.len() as int;
            let val = self.read_entry()?;
            proof {
                lemma_entries_ok_grows(nhash@, mid, self.state().heap.len() as int);
                lemma_entries_ok_insert(nhash@, key@, val@, self.state().heap.len() as int);
            }
            nhash.insert(key, val);
            i = i + 1;
        }
        if has_default {
            let ghost mid = self.state().heap.len() as int;
            let d = self.read_entry()?;
            proof {
                lemma_entries_ok_grows(nhash@, mid, self.state().heap.len() as int);
            }
            nhash.set_default(Some(d));
        }
        Ok(RbRef::Hash(nhash))
    }

    /// Reads the body of a bare regex.
    fn read_regex(&mut self) -> (r: TResult<RbRef>)
        requires
            old(self).wf(),
        ensures
            agrees(
                *old(self),
                *final(self),
                spec_plain(
                    spec_read_regex(old(self).spec_src(), old(self).spec_pos()),
                    old(self).state(),
                ),
                r,
            ),
            r matches Ok(n) ==> node_ok(n@, final(self).state().heap.len() as int, 0) && !(n@ is Extended),
    {
        proof {
            reveal(spec_text);
        }
        let content = self.read_len_bytes()?;
        let flags = self.read_byte()? as u32;
        Ok(RbRef::Regex { content: bytes_to_string(content.as_slice())?, flags })
    }

    /// Reads the body of an object or a struct.
    fn read_rb_object(&mut self) -> (r: TResult<RbObject>)
        requires
            old(self).wf(),
        ensures
            agrees(
                *old(self),
                *final(self),
                spec_read_object(
                    old(self).spec_src(),
                    old(self).spec_pos(),
                    old(self).state(),
                    old(self).spec_lax(),
                ),
                r,
            ),
            r matches Ok(o) ==> fields_ok(o.fields@, final(self).state().heap.len() as int),
            r is Ok ==> old(self).spec_pos() < final(self).spec_pos() <= final(self).spec_src().len(),
        decreases old(self).spec_src().len() - old(self).spec_pos(), 3int,
    {
        let name = self.read_entry_symbol()?;
        let fields = self.read_tail()?;
        Ok(RbObject { name, fields })
    }

    /// Reads the body of an instance of a user class.
    fn read_user_class(&mut self) -> (r: TResult<RbRef>)
        requires
            old(self).wf(),
        ensures
            agrees(
                *old(self),
                *final(self),
                match spec_read_class(
                    old(self).spec_src(),
                    old(self).spec_pos(),
                    old(self).state(),
                    old(self).spec_lax(),
                ) {
                    Err(e) => Err(e),
                    Ok(((name, data), p, s)) => Ok((Node::UserClass { name, data }, p, s)),
                },
                r,
            ),
            r matches Ok(n) ==> node_ok(n@, final(self).state().heap.len() as int, 0) && !(n@ is Extended),
        decreases old(self).spec_src().len() - old(self).spec_pos(), 4int,
    {
        Ok(RbRef::UserClass(self.read_rb_class()?))
    }

    /// Reads the body of user data: a name, a length and that many bytes.
    fn read_user_data(&mut self) -> (r: TResult<RbRef>)
        requires
            old(self).wf(),
        ensures
            agrees(
                *old(self),
                *final(self),
                spec_read_user_data(
                    old(self).spec_src(),
                    old(self).spec_pos(),
                    old(self).state(),
                    old(self).spec_lax(),
                ),
                r,
            ),
            r matches Ok(n) ==> node_ok(n@, final(self).state().heap.len() as int, 0) && !(n@ is Extended),
        decreases old(self).spec_src().len() - old(self).spec_pos(), 3int,
    {
        let name = self.read_entry_symbol()?;
        let data = self.read_len_bytes()?;
        Ok(RbRef::UserData(RbUserData { name, data }))
    }

    /// Reads a stream: the header and one entry, from the start of the
    /// bytes and with empty tables. Returns the graph, the value that was
    /// read, and the position at which reading stopped: the number of bytes
    /// that the header and the entry take. Bytes from there on are not
    /// looked at.
    pub fn read_counted(self) -> (r: TResult<(RbContext, RbAny, usize)>)
        ensures
            match spec_decode_counted(self.spec_src(), self.spec_lax()) {
                Ok((heap, v, end)) => {
                    &&& r matches Ok((ctx, x, n)) && ctx@ == heap && x@ == v && n == end
                    &&& value_ok(v, heap.len() as int)
                    &&& 2 < end <= self.spec_src().len()
                },
                Err(e) => r matches Err(g) && g == e,
            },
    {
        let lax = self.allow_bin_strings;
        let mut rd = RbReader::new(self.src);
        rd.allow_bin_strings = lax;
        if rd.src.len() < 2 {
            return Err(ThurgoodError::IO);
        }
        let major = rd.src[0];
        let minor = rd.src[1];
        if !(major == 4 && minor == 8) {
            return Err(ThurgoodError::Version(major, minor));
        }
        rd.pos = 2;
        let v = rd.read_entry()?;
        Ok((rd.ctx, v, rd.pos))
    }

    /// Reads a stream: the header and one entry, from the start of the
    /// bytes and with empty tables. Returns the graph and the value that was
    /// read. Bytes after the entry are not looked at.
    pub fn read(self) -> (r: TResult<(RbContext, RbAny)>)
        ensures
            match spec_decode(self.spec_src(), self.spec_lax()) {
                Ok((heap, v)) => r matches Ok((ctx, x)) && ctx@ == heap && x@ == v && value_ok(
                    v,
                    heap.len() as int,
                ),
                Err(e) => r matches Err(g) && g == e,
            },
    {
        match self.read_counted() {
            Ok((ctx, v, _)) => Ok((ctx, v)),
            Err(e) => Err(e),
        }
    }
}

/// Fields stay fit when fields that fit are inserted.
pub proof fn lemma_extend_ok(
    fields: Seq<(Seq<u8>, Value)>,
    pairs: Seq<(Seq<u8>, Value)>,
    n: int,
    len: int,
)
    requires
        fields_ok(fields, len),
        fields_ok(pairs, len),
        0 <= n <= pairs.len(),
    ensures
        fields_ok(spec_extend(fields, pairs, n), len),
    decreases n,
{
    if n > 0 {
        lemma_extend_ok(fields, pairs, n - 1, len);
        lemma_fields_ok_insert(spec_extend(fields, pairs, n - 1), pairs[n - 1].0, pairs[n - 1].1, len);
    }
}

/// Decodes a stream: the header and one entry. Returns the graph and the
/// value that was read; an object of the graph is named by its handle.
/// Nothing is returned of a stream that ends early or is malformed.
pub fn from_reader(src: &[u8]) -> (r: TResult<(RbContext, RbAny)>)
    ensures
        match spec_decode(src@, false) {
            Ok((heap, v)) => r matches Ok((ctx, x)) && ctx@ == heap && x@ == v && value_ok(
                v,
                heap.len() as int,
            ),
            Err(e) => r matches Err(g) && g == e,
        },
{
    let de = RbReader::new(slice_to_vec(src));
    de.read()
}

/// Decodes a stream as `from_reader` does, and also returns the position at
/// which reading stopped: the number of bytes of `src` that the header and
/// the entry take. What follows them is not looked at.
pub fn from_reader_counted(src: &[u8]) -> (r: TResult<(RbContext, RbAny, usize)>)
    ensures
        match spec_decode_counted(src@, false) {
            Ok((heap, v, end)) => {
                &&& r matches Ok((ctx, x, n)) && ctx@ == heap && x@ == v && n == end
                &&& value_ok(v, heap.len() as int)
                &&& 2 < end <= src@.len()
            },
            Err(e) => r matches Err(g) && g == e,
        },
{
    let de = RbReader::new(slice_to_vec(src));
    de.read_counted()
}

} // verus!
