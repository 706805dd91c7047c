//! Looking into a graph: the object behind a handle, and children by key.

use vstd::prelude::*;
use crate::context::RbContext;
use crate::hash::RbHash;
use crate::node::{Node, RbRef};
use crate::object::RbObject;
use crate::ordered::spec_position;
use crate::value::{RbAny, Value};

verus! {

/// The value of the field with the given name.
pub open spec fn spec_field(fields: Seq<(Seq<u8>, Value)>, key: Value) -> Option<Value> {
    match key {
        Value::Symbol(name) => match spec_position(fields, name) {
            Some(i) => Some(fields[i].1),
            None => None,
        },
        _ => None,
    }
}

/// The child of an object under a key. An array has its elements under
/// their indices; a hash, its values under their keys; an object or a
/// struct, its fields under their names. An envelope or an extended object
/// has the children of the object it wraps; of such wrappings at most
/// `fuel` are followed. Nothing else has children.
pub open spec fn spec_child(h: Seq<Node>, n: Node, key: Value, fuel: nat) -> Option<Value>
    decreases fuel,
{
    match n {
        Node::Array(items) => match key {
            Value::Int(k) => if 0 <= k < items.len() {
                Some(items[k as int])
            } else {
                None
            },
            _ => None,
        },
        Node::Hash { entries, default } => match spec_position(entries, key) {
            Some(i) => Some(entries[i].1),
            None => None,
        },
        Node::Struct { name, fields } => spec_field(fields, key),
        Node::Object { name, fields } => spec_field(fields, key),
        Node::Data { name, data } => spec_child_of(h, data, key, fuel),
        Node::UserClass { name, data } => spec_child_of(h, data, key, fuel),
        Node::UserMarshal { name, data } => spec_child_of(h, data, key, fuel),
        Node::Extended { module, object } => spec_child_of(h, object, key, fuel),
        _ => None,
    }
}

/// The child, under a key, of the object that a value names.
pub open spec fn spec_child_of(h: Seq<Node>, v: Value, key: Value, fuel: nat) -> Option<Value>
    decreases fuel, 0int,
    when fuel >= 0
{
    match v {
        Value::Ref(id) => if 0 <= id < h.len() && fuel > 0 {
            spec_child(h, h[id], key, (fuel - 1) as nat)
        } else {
            None
        },
        _ => None,
    }
}

/// The value reached from `root` by the keys of `path` from the `i`-th on,
/// each leading from an object to one of its children. A path of wrappings
/// that leads back to itself reaches nothing.
pub open spec fn spec_find_child(h: Seq<Node>, root: Value, path: Seq<Value>, i: int) -> Option<
    Value,
>
    decreases path.len() - i,
{
    if !(0 <= i < path.len()) {
        Some(root)
    } else {
        match spec_child_of(h, root, path[i], h.len() + 1) {
            Some(next) => spec_find_child(h, next, path, i + 1),
            None => None,
        }
    }
}

impl RbRef {
    /// The child of this object under the given key: for an array, the key
    /// is the index of an element; for a hash, one of its keys; for an
    /// object or a struct, the name of a field. An envelope has the
    /// children of the object it wraps.
    pub fn get_child<'a>(&'a self, ctx: &'a RbContext, key: &RbAny) -> (r: Option<&'a RbAny>)
        ensures
            match spec_child(ctx@, self@, key@, ctx@.len()) {
                Some(v) => r matches Some(x) && x@ == v,
                None => r is None,
            },
    {
        let mut cur: &RbRef = self;
        let mut fuel: usize = ctx.len();
        loop
            invariant
                fuel <= ctx@.len(),
                spec_child(ctx@, self@, key@, ctx@.len()) == spec_child(ctx@, cur@, key@, fuel as nat),
            decreases fuel,
        {
            let wrapped: &RbAny = match cur {
                RbRef::Array(v) => {
                    return match key {
                        RbAny::Int(k) => if *k >= 0 && (*k as usize) < v.len() {
                            Some(&v[*k as usize])
                        } else {
                            None
                        },
                        _ => None,
                    };
                },
                RbRef::Hash(v) => {
                    return v.get(key);
                },
                RbRef::Struct(v) => {
                    return match key {
                        RbAny::Symbol(s) => v.get(s),
                        _ => None,
                    };
                },
                RbRef::Object(v) => {
                    return match key {
                        RbAny::Symbol(s) => v.get(s),
                        _ => None,
                    };
                },
                RbRef::Data(v) => &v.data,
                RbRef::UserClass(v) => &v.data,
                RbRef::UserMarshal(v) => &v.data,
                RbRef::Extended { module, object } => object,
                _ => {
                    return None;
                },
            };
            match wrapped {
                RbAny::Ref(id) => match ctx.get(id) {
                    Some(next) => {
                        if fuel == 0 {
                            return None;
                        }
                        cur = next;
                        fuel = fuel - 1;
                    },
                    None => {
                        return None;
                    },
                },
                _ => {
                    return None;
                },
            }
        }
    }
}

impl RbAny {
    /// The object that this value names in the given graph.
    pub fn as_rbref<'a>(&self, ctx: &'a RbContext) -> (r: Option<&'a RbRef>)
        ensures
            match r {
                Some(n) => self@ matches Value::Ref(id) && 0 <= id < ctx@.len() && n@ == ctx@[id],
                None => !(self@ matches Value::Ref(id) && 0 <= id < ctx@.len()),
            },
    {
        match self {
            RbAny::Ref(id) => ctx.get(id),
            _ => None,
        }
    }

    /// The elements, if this value names an array.
    pub fn as_array<'a>(&self, ctx: &'a RbContext) -> (r: Option<&'a Vec<RbAny>>)
        ensures
            r.is_some() <==> (self@ matches Value::Ref(id) && 0 <= id < ctx@.len()
                && ctx@[id] is Array),
            r matches Some(v) ==> RbRef::Array(*v)@ == ctx@[self@->Ref_0],
    {
        match self.as_rbref(ctx) {
            Some(n) => n.as_array(),
            None => None,
        }
    }

    /// The hash, if this value names one.
    pub fn as_hash<'a>(&self, ctx: &'a RbContext) -> (r: Option<&'a RbHash>)
        ensures
            r.is_some() <==> (self@ matches Value::Ref(id) && 0 <= id < ctx@.len()
                && ctx@[id] is Hash),
            r matches Some(v) ==> RbRef::Hash(*v)@ == ctx@[self@->Ref_0],
    {
        match self.as_rbref(ctx) {
            Some(n) => n.as_hash(),
            None => None,
        }
    }

    /// The object, if this value names one (and not a struct).
    pub fn as_object<'a>(&self, ctx: &'a RbContext) -> (r: Option<&'a RbObject>)
        ensures
            r.is_some() <==> (self@ matches Value::Ref(id) && 0 <= id < ctx@.len()
                && ctx@[id] is Object),
            r matches Some(v) ==> RbRef::Object(*v)@ == ctx@[self@->Ref_0],
    {
        match self.as_rbref(ctx) {
            Some(n) => n.as_object(),
            None => None,
        }
    }

    /// The string, if this value names a UTF-8 string.
    pub fn as_string<'a>(&self, ctx: &'a RbContext) -> (r: Option<&'a String>)
        ensures
            r.is_some() <==> (self@ matches Value::Ref(id) && 0 <= id < ctx@.len()
                && ctx@[id] is Str),
            r matches Some(v) ==> RbRef::Str(*v)@ == ctx@[self@->Ref_0],
    {
        match self.as_rbref(ctx) {
            Some(n) => n.as_string(),
            None => None,
        }
    }

    /// The value reached from `root` by the keys of `path`, each leading
    /// from an object to one of its children.
    pub fn find_child<'a>(ctx: &'a RbContext, root: &'a RbAny, path: &[RbAny]) -> (r: Option<
        &'a RbAny,
    >)
        ensures
            match spec_find_child(ctx@, root@, spec_path(path@), 0) {
                Some(v) => r matches Some(x) && x@ == v,
                None => r is None,
            },
    {
        let mut current: &RbAny = root;
        let mut i: usize = 0;
        let ghost keys = spec_path(path@);
        while i < path.len()
            invariant
                0 <= i <= path@.len(),
                keys == spec_path(path@),
                spec_find_child(ctx@, root@, keys, 0) == spec_find_child(
                    ctx@,
                    current@,
                    keys,
                    i as int,
                ),
            decreases path@.len() - i,
        {
            let node = match current.as_rbref(ctx) {
                Some(n) => n,
                None => {
                    return None;
                },
            };
            current = match node.get_child(ctx, &path[i]) {
                Some(c) => c,
                None => {
                    return None;
                },
            };
            i = i + 1;
        }
        Some(current)
    }
}

/// The models of the keys of a path.
pub open spec fn spec_path(path: Seq<RbAny>) -> Seq<Value> {
    Seq::new(path.len(), |i: int| path[i]@)
}

} // verus!
