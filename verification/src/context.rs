//! The graph: an arena of objects.

use vstd::prelude::*;
use crate::bigint::is_normal;
use crate::error::{TResult, ThurgoodError};
use crate::fields::RbFields;
use crate::float::spec_is_float;
use crate::hash::RbHash;
use crate::node::{spec_node_type, spec_values, Node, RbRef};
use crate::rb_type::RbType;
use crate::ordered::{distinct_keys, lemma_insert_distinct, lemma_position, spec_insert};
use crate::value::{RbAny, RefId, Value};

verus! {

/// A value fits a graph of `len` objects when it is a scalar or names one
/// of the objects.
pub open spec fn value_ok(v: Value, len: int) -> bool {
    v matches Value::Ref(id) ==> 0 <= id < len
}

/// Every value of the sequence fits.
pub open spec fn values_ok(items: Seq<Value>, len: int) -> bool {
    forall|i: int| 0 <= i < items.len() ==> value_ok(#[trigger] items[i], len)
}

/// Every value of the fields fits, and no key occurs twice.
pub open spec fn fields_ok(fields: Seq<(Seq<u8>, Value)>, len: int) -> bool {
    &&& distinct_keys(fields)
    &&& forall|i: int| 0 <= i < fields.len() ==> value_ok((#[trigger] fields[i]).1, len)
}

/// Every key and value of the entries fits, and no key occurs twice.
pub open spec fn entries_ok(entries: Seq<(Value, Value)>, len: int) -> bool {
    &&& distinct_keys(entries)
    &&& forall|i: int|
        0 <= i < entries.len() ==> value_ok((#[trigger] entries[i]).0, len) && value_ok(
            entries[i].1,
            len,
        )
}

/// An object fits the place `at` of a graph of `len` objects: every handle
/// that it holds names an object of the graph; an extended object wraps an
/// object of a lower place; a float is a numeral and the magnitude of a big
/// integer is in normal form.
pub open spec fn node_ok(n: Node, len: int, at: int) -> bool {
    match n {
        Node::Float(text) => spec_is_float(text),
        Node::BigInt { negative, magnitude } => is_normal(magnitude) && (negative ==> magnitude
            != seq![0u8]),
        Node::Array(items) => values_ok(items, len),
        Node::StrI { content, metadata } => fields_ok(metadata, len),
        Node::RegexI { content, flags, metadata } => fields_ok(metadata, len),
        Node::Hash { entries, default } => entries_ok(entries, len) && (default matches Some(d)
            ==> value_ok(d, len)),
        Node::Struct { name, fields } => fields_ok(fields, len),
        Node::Object { name, fields } => fields_ok(fields, len),
        Node::Data { name, data } => value_ok(data, len),
        Node::UserClass { name, data } => value_ok(data, len),
        Node::UserMarshal { name, data } => value_ok(data, len),
        Node::Extended { module, object } => value_ok(object, at),
        _ => true,
    }
}

/// A well-formed graph: every object fits its place.
pub open spec fn heap_ok(h: Seq<Node>) -> bool {
    forall|i: int| 0 <= i < h.len() ==> node_ok(#[trigger] h[i], h.len() as int, i)
}

/// An object that fits a graph fits every larger graph.
pub proof fn lemma_node_ok_grows(n: Node, len: int, more: int, at: int)
    requires
        node_ok(n, len, at),
        len <= more,
    ensures
        node_ok(n, more, at),
{
    match n {
        Node::Array(items) => {
            assert(values_ok(items, more));
        },
        Node::StrI { content, metadata } => {
            assert(fields_ok(metadata, more));
        },
        Node::RegexI { content, flags, metadata } => {
            assert(fields_ok(metadata, more));
        },
        Node::Hash { entries, default } => {
            assert(entries_ok(entries, more));
        },
        Node::Struct { name, fields } => {
            assert(fields_ok(fields, more));
        },
        Node::Object { name, fields } => {
            assert(fields_ok(fields, more));
        },
        _ => {},
    }
}

/// Adding an object that fits keeps a graph well-formed.
pub proof fn lemma_heap_push(h: Seq<Node>, n: Node)
    requires
        heap_ok(h),
        node_ok(n, h.len() as int + 1, h.len() as int),
    ensures
        heap_ok(h.push(n)),
{
    let g = h.push(n);
    assert forall|i: int| 0 <= i < g.len() implies node_ok(#[trigger] g[i], g.len() as int, i) by {
        if i < h.len() {
            assert(g[i] == h[i]);
            lemma_node_ok_grows(h[i], h.len() as int, g.len() as int, i);
        }
    }
}

/// Replacing an object by one that fits keeps a graph well-formed.
pub proof fn lemma_heap_update(h: Seq<Node>, at: int, n: Node)
    requires
        heap_ok(h),
        0 <= at < h.len(),
        node_ok(n, h.len() as int, at),
    ensures
        heap_ok(h.update(at, n)),
{
    let g = h.update(at, n);
    assert forall|i: int| 0 <= i < g.len() implies node_ok(#[trigger] g[i], g.len() as int, i) by {
        if i != at {
            assert(g[i] == h[i]);
        }
    }
}

/// The coarse type of a value of a graph: for a handle, that of the object
/// it names.
pub open spec fn spec_type_of(heap: Seq<Node>, v: Value) -> RbType {
    match v {
        Value::Nil => RbType::Nil,
        Value::True => RbType::Bool,
        Value::False => RbType::Bool,
        Value::Int(_) => RbType::Int,
        Value::Symbol(_) => RbType::Symbol,
        Value::Ref(id) => if 0 <= id < heap.len() {
            spec_node_type(heap[id])
        } else {
            RbType::ObjectRef
        },
    }
}

/// Fields that fit a graph fit every larger graph.
pub proof fn lemma_fields_ok_grows(fields: Seq<(Seq<u8>, Value)>, len: int, more: int)
    requires
        fields_ok(fields, len),
        len <= more,
    ensures
        fields_ok(fields, more),
{
}

/// Entries that fit a graph fit every larger graph.
pub proof fn lemma_entries_ok_grows(entries: Seq<(Value, Value)>, len: int, more: int)
    requires
        entries_ok(entries, len),
        len <= more,
    ensures
        entries_ok(entries, more),
{
}

/// Values that fit a graph fit every larger graph.
pub proof fn lemma_values_ok_grows(items: Seq<Value>, len: int, more: int)
    requires
        values_ok(items, len),
        len <= more,
    ensures
        values_ok(items, more),
{
}

/// Fields stay fit when a value that fits is inserted.
pub proof fn lemma_fields_ok_insert(fields: Seq<(Seq<u8>, Value)>, key: Seq<u8>, v: Value, len: int)
    requires
        fields_ok(fields, len),
        value_ok(v, len),
    ensures
        fields_ok(spec_insert(fields, key, v), len),
{
    lemma_insert_distinct(fields, key, v);
    lemma_position(fields, key);
    let after = spec_insert(fields, key, v);
    assert forall|i: int| 0 <= i < after.len() implies value_ok((#[trigger] after[i]).1, len) by {
        if i < fields.len() {
            assert(after[i] == fields[i] || after[i].1 == v);
        }
    }
}

/// Entries stay fit when a key and a value that fit are inserted.
pub proof fn lemma_entries_ok_insert(entries: Seq<(Value, Value)>, key: Value, v: Value, len: int)
    requires
        entries_ok(entries, len),
        value_ok(key, len),
        value_ok(v, len),
    ensures
        entries_ok(spec_insert(entries, key, v), len),
{
    lemma_insert_distinct(entries, key, v);
    lemma_position(entries, key);
    let after = spec_insert(entries, key, v);
    assert forall|i: int| 0 <= i < after.len() implies value_ok((#[trigger] after[i]).0, len)
        && value_ok(after[i].1, len) by {
        if i < entries.len() {
            assert(after[i] == entries[i] || (after[i].0 == entries[i].0 && after[i].1 == v));
        }
    }
}

/// The models of the objects of an arena.
pub open spec fn spec_nodes(objects: Seq<RbRef>) -> Seq<Node> {
    Seq::new(objects.len(), |i: int| objects[i]@)
}

fn value_fits(v: &RbAny, len: usize) -> (r: bool)
    ensures
        r == value_ok(v@, len as int),
{
    match v {
        RbAny::Ref(id) => id.index() < len,
        _ => true,
    }
}

fn values_fit(items: &Vec<RbAny>, len: usize) -> (r: bool)
    ensures
        r == values_ok(spec_values(items@), len as int),
{
    let mut i: usize = 0;
    while i < items.len()
        invariant
            0 <= i <= items@.len(),
            forall|j: int| 0 <= j < i ==> value_ok(#[trigger] spec_values(items@)[j], len as int),
        decreases items@.len() - i,
    {
        if !value_fits(&items[i], len) {
            assert(!value_ok(spec_values(items@)[i as int], len as int));
            return false;
        }
        i = i + 1;
    }
    true
}

fn fields_fit(fields: &RbFields, len: usize) -> (r: bool)
    ensures
        r == fields_ok(fields@, len as int),
{
    let n = fields.len();
    let mut i: usize = 0;
    while i < n
        invariant
            0 <= i <= n,
            n == fields@.len(),
            distinct_keys(fields@),
            forall|j: int| 0 <= j < i ==> value_ok((#[trigger] fields@[j]).1, len as int),
        decreases n - i,
    {
        match fields.get_index(i) {
            Some((_, v)) => {
                if !value_fits(v, len) {
                    assert(!value_ok(fields@[i as int].1, len as int));
                    return false;
                }
            },
            None => {},
        }
        i = i + 1;
    }
    true
}

fn hash_fits(hash: &RbHash, len: usize) -> (r: bool)
    ensures
        r == (entries_ok(hash@, len as int) && (hash.spec_default() matches Some(d) ==> value_ok(
            d,
            len as int,
        ))),
{
    let n = hash.len();
    let mut i: usize = 0;
    while i < n
        invariant
            0 <= i <= n,
            n == hash@.len(),
            distinct_keys(hash@),
            forall|j: int|
                0 <= j < i ==> value_ok((#[trigger] hash@[j]).0, len as int) && value_ok(
                    hash@[j].1,
                    len as int,
                ),
        decreases n - i,
    {
        match hash.get_index(i) {
            Some((k, v)) => {
                if !value_fits(k, len) || !value_fits(v, len) {
                    assert(!(value_ok(hash@[i as int].0, len as int) && value_ok(
                        hash@[i as int].1,
                        len as int,
                    )));
                    return false;
                }
            },
            None => {},
        }
        i = i + 1;
    }
    match hash.default_value() {
        Some(d) => value_fits(d, len),
        None => true,
    }
}

/// Whether an object fits the place `at` of a graph of `len` objects.
pub fn node_fits(node: &RbRef, len: usize, at: usize) -> (r: bool)
    ensures
        r == node_ok(node@, len as int, at as int),
{
    match node {
        RbRef::Float(v) => {
            let _ = v.as_bytes();
            true
        },
        RbRef::BigInt(v) => {
            let _ = v.to_bytes_le();
            true
        },
        RbRef::Array(items) => values_fit(items, len),
        RbRef::StrI { content, metadata } => fields_fit(metadata, len),
        RbRef::RegexI { content, flags, metadata } => fields_fit(metadata, len),
        RbRef::Hash(hash) => hash_fits(hash, len),
        RbRef::Struct(obj) => fields_fit(&obj.fields, len),
        RbRef::Object(obj) => fields_fit(&obj.fields, len),
        RbRef::Data(c) => value_fits(&c.data, len),
        RbRef::UserClass(c) => value_fits(&c.data, len),
        RbRef::UserMarshal(c) => value_fits(&c.data, len),
        RbRef::Extended { module, object } => value_fits(object, at),
        _ => true,
    }
}

impl RbAny {
    /// The coarse type of this value: for a handle, that of the object it
    /// names in the given graph.
    pub fn get_type(&self, ctx: &RbContext) -> (r: RbType)
        ensures
            r == spec_type_of(ctx@, self@),
    {
        match self {
            RbAny::Int(_) => RbType::Int,
            RbAny::True => RbType::Bool,
            RbAny::False => RbType::Bool,
            RbAny::Nil => RbType::Nil,
            RbAny::Symbol(_) => RbType::Symbol,
            RbAny::Ref(id) => match ctx.get(id) {
                Some(node) => node.get_type(),
                None => RbType::ObjectRef,
            },
        }
    }
}

/// A graph of objects. Every object has a handle; an object holds handles
/// on the objects it refers to, so several positions can name one object
/// and an object can occur among its own descendants.
///
/// A graph is well-formed at all times: every handle that an object holds
/// names an object of the same graph, and an extended object wraps an
/// object that was added before it.
#[derive(Debug)]
pub struct RbContext {
    objects: Vec<RbRef>,
}

impl View for RbContext {
    type V = Seq<Node>;

    closed spec fn view(&self) -> Seq<Node> {
        spec_nodes(self.objects@)
    }
}

impl RbContext {
    #[verifier::type_invariant]
    closed spec fn inv(self) -> bool {
        heap_ok(spec_nodes(self.objects@))
    }

    /// A graph without objects.
    pub fn new() -> (r: RbContext)
        ensures
            r@ == Seq::<Node>::empty(),
    {
        let r = RbContext { objects: Vec::new() };
        assert(r@ =~= Seq::<Node>::empty());
        r
    }

    /// The number of objects. The graph is well-formed.
    pub fn len(&self) -> (n: usize)
        ensures
            n == self@.len(),
            heap_ok(self@),
    {
        proof {
            use_type_invariant(self);
        }
        self.objects.len()
    }

    /// The handle of the object at the given place, if the graph has that
    /// many objects.
    pub fn handle(&self, index: usize) -> (r: Option<RbAny>)
        ensures
            r matches Some(v) ==> v@ == Value::Ref(index as int),
            r is Some <==> index < self@.len(),
    {
        if index < self.objects.len() {
            Some(RbAny::Ref(RefId::at(index)))
        } else {
            None
        }
    }

    /// Whether the value is a scalar or names an object of this graph.
    pub fn contains(&self, value: &RbAny) -> (r: bool)
        ensures
            r == value_ok(value@, self@.len() as int),
    {
        value_fits(value, self.objects.len())
    }

    /// The object that a handle names, if it names one of this graph.
    pub fn get(&self, id: &RefId) -> (r: Option<&RbRef>)
        ensures
            match r {
                Some(n) => 0 <= id@ < self@.len() && n@ == self@[id@],
                None => id@ >= self@.len(),
            },
    {
        if id.index() < self.objects.len() {
            Some(&self.objects[id.index()])
        } else {
            None
        }
    }

    /// Adds an object that is known to fit, and returns its handle.
    pub(crate) fn push(&mut self, node: RbRef) -> (id: RefId)
        requires
            node_ok(node@, old(self)@.len() as int + 1, old(self)@.len() as int),
        ensures
            final(self)@ == old(self)@.push(node@),
            id@ == old(self)@.len(),
    {
        proof {
            use_type_invariant(&*self);
            lemma_heap_push(self@, node@);
        }
        let ghost before = self@;
        let ghost added = node@;
        let mut objects: Vec<RbRef> = Vec::new();
        assert(spec_nodes(objects@) =~= Seq::<Node>::empty());
        std::mem::swap(&mut self.objects, &mut objects);
        let at = objects.len();
        objects.push(node);
        assert(spec_nodes(objects@) =~= before.push(added));
        std::mem::swap(&mut self.objects, &mut objects);
        RefId::at(at)
    }

    /// Replaces the object at `id` by one that is known to fit.
    pub(crate) fn put(&mut self, id: RefId, node: RbRef)
        requires
            0 <= id@ < old(self)@.len(),
            node_ok(node@, old(self)@.len() as int, id@),
        ensures
            final(self)@ == old(self)@.update(id@, node@),
    {
        proof {
            use_type_invariant(&*self);
            lemma_heap_update(self@, id@, node@);
        }
        let ghost before = self@;
        let ghost added = node@;
        let mut objects: Vec<RbRef> = Vec::new();
        assert(spec_nodes(objects@) =~= Seq::<Node>::empty());
        std::mem::swap(&mut self.objects, &mut objects);
        objects.set(id.index(), node);
        assert(spec_nodes(objects@) =~= before.update(id@, added));
        std::mem::swap(&mut self.objects, &mut objects);
    }

    /// Adds an object to the graph and returns its handle. The object may
    /// hold handles on the objects that the graph has so far; if it holds
    /// any other, the graph stays as it is and the error names the place
    /// that the object would have taken.
    pub fn store(&mut self, node: RbRef) -> (r: TResult<RbAny>)
        ensures
            match r {
                Ok(v) => {
                    &&& node_ok(node@, old(self)@.len() as int, old(self)@.len() as int)
                    &&& final(self)@ == old(self)@.push(node@)
                    &&& v@ == Value::Ref(old(self)@.len() as int)
                },
                Err(e) => {
                    &&& !node_ok(node@, old(self)@.len() as int, old(self)@.len() as int)
                    &&& final(self)@ == old(self)@
                    &&& e == ThurgoodError::BadObjectRef(old(self)@.len() as usize)
                },
            },
    {
        let len = self.objects.len();
        if node_fits(&node, len, len) {
            proof {
                lemma_node_ok_grows(node@, len as int, len as int + 1, len as int);
            }
            let id = self.push(node);
            Ok(RbAny::Ref(id))
        } else {
            Err(ThurgoodError::BadObjectRef(len))
        }
    }

    /// Replaces the object that `id` names. The new object may hold handles
    /// on any object of the graph, itself included, but an extended object
    /// must wrap an object that was added before `id`. Otherwise, or if
    /// `id` names no object of this graph, the graph stays as it is and the
    /// error names `id`.
    pub fn set(&mut self, id: &RefId, node: RbRef) -> (r: TResult<()>)
        ensures
            match r {
                Ok(_) => {
                    &&& 0 <= id@ < old(self)@.len()
                    &&& node_ok(node@, old(self)@.len() as int, id@)
                    &&& final(self)@ == old(self)@.update(id@, node@)
                },
                Err(e) => {
                    &&& !(0 <= id@ < old(self)@.len() && node_ok(
                        node@,
                        old(self)@.len() as int,
                        id@,
                    ))
                    &&& final(self)@ == old(self)@
                    &&& e matches ThurgoodError::BadObjectRef(i) && i == id@
                },
            },
    {
        let len = self.objects.len();
        if id.index() < len && node_fits(&node, len, id.index()) {
            self.put(*id, node);
            Ok(())
        } else {
            Err(ThurgoodError::BadObjectRef(id.index()))
        }
    }
}

} // verus!
