//! Deep comparison of two values.

use vstd::prelude::*;
use std::cmp::Ordering;
use std::collections::HashMap;
use crate::context::RbContext;
use crate::fields::RbFields;
use crate::hash::RbHash;
use crate::node::{spec_ordinal, spec_values, Node, RbRef};
use crate::object::RbObject;
use crate::decimal::order_floats;
use crate::order::{
    ord_loose, spec_deep_order_within, Scope, ord_any, ord_entries, ord_fields, ord_fields_from,
    ord_hash, ord_items, ord_object, ord_ref, ord_regex, ord_same, ord_symbol_any, spec_any_id,
    spec_code, spec_deep_order, spec_pair_key, spec_room, spec_settled, spec_outcome, Judged,
    Seen,
};
use crate::rank::{
    order_bigint, order_bytes, order_i32, order_u32, order_usize, rank_to_ordering, spec_ix,
    Rank,
};
use crate::symbol::RbSymbol;
use crate::value::{RbAny, RefId, Value};

verus! {

/// A pair of objects, the first of the left graph and the second of the
/// right graph.
#[derive(Debug, Clone, Copy, PartialEq, Eq, Hash)]
pub struct RefPair(u128);

impl RefPair {
    /// The key that stands for the pair in the record of a comparison.
    pub closed spec fn spec_key(&self) -> u128 {
        self.0
    }

    /// The pair of the objects that `a` and `b` name.
    pub fn new(a: &RefId, b: &RefId) -> (r: RefPair)
        ensures
            r.spec_key() == spec_pair_key(a@, b@),
    {
        let hi: u128 = a.index() as u128;
        let lo: u128 = b.index() as u128;
        RefPair(hi * 0x1_0000_0000_0000_0000 + lo)
    }

    fn key(&self) -> (r: u128)
        ensures
            r == self.spec_key(),
    {
        self.0
    }
}

/// The number of pairs of an object of one graph and an object of another.
fn pair_count(left: usize, right: usize) -> (r: u128)
    ensures
        r == left * right,
{
    let a: u128 = left as u128;
    let b: u128 = right as u128;
    assert(a * b <= 0xFFFF_FFFF_FFFF_FFFF * 0xFFFF_FFFF_FFFF_FFFF) by (nonlinear_arith)
        requires
            0 <= a <= 0xFFFF_FFFF_FFFF_FFFF,
            0 <= b <= 0xFFFF_FFFF_FFFF_FFFF,
    ;
    a * b
}

/// Whether the record can take one more pair.
fn has_room(seen: &HashMap<u128, u8>, total: u128) -> (r: bool)
    ensures
        r == (seen@.dom().finite() && seen@.dom().len() < total),
{
    (seen.len() as u128) < total
}

/// The order of two objects of different graphs whose contents have no
/// order.
fn order_loose(l: &RbRef, r: &RbRef) -> (o: Rank)
    ensures
        o == ord_loose(l@, r@),
{
    match (l, r) {
        (RbRef::Float(x), RbRef::Float(y)) => {
            if x.is_nan() && y.is_nan() {
                order_bytes(x.as_bytes(), y.as_bytes())
            } else if x.is_nan() {
                Rank::Greater
            } else if y.is_nan() {
                Rank::Less
            } else {
                Rank::Equal
            }
        },
        _ => Rank::Equal,
    }
}

/// The code of a outcome.
fn code_of(v: Rank) -> (c: u8)
    ensures
        c == spec_code(Some(v)),
        spec_outcome(c) == Some(v),
{
    match v {
        Rank::Less => 1,
        Rank::Equal => 2,
        Rank::Greater => 3,
    }
}

/// The outcome that a code stands for.
fn outcome_of(c: u8) -> (v: Option<Rank>)
    ensures
        v == spec_outcome(c),
{
    if c == 0 {
        None
    } else if c == 1 {
        Some(Rank::Less)
    } else if c == 2 {
        Some(Rank::Equal)
    } else {
        Some(Rank::Greater)
    }
}

/// A outcome, or equal where there is none.
fn settled(v: Option<Rank>) -> (r: Rank)
    ensures
        r == spec_settled(v),
{
    match v {
        Some(r) => r,
        None => Rank::Equal,
    }
}

/// The models of the fields, if there are any.
pub open spec fn spec_meta(m: Option<&RbFields>) -> Option<Seq<(Seq<u8>, Value)>> {
    match m {
        Some(f) => Some(f@),
        None => None,
    }
}

/// Compares values deeply. It holds the record of the pairs of objects
/// that the comparison has met.
pub struct RbCompare {
    seen: HashMap<u128, u8>,
}

/// A step of the comparison went as the definition says: the outcome and
/// the record are those of the definition, and the record has not shrunk.
pub open spec fn judged(before: RbCompare, after: RbCompare, want: Judged, got: Option<Rank>, total: Scope) -> bool {
    &&& got == want.0
    &&& after.spec_seen() == want.1
    &&& spec_room(after.spec_seen(), total) <= spec_room(before.spec_seen(), total)
}

impl RbCompare {
    /// The record of the pairs met.
    pub closed spec fn spec_seen(&self) -> Seen {
        self.seen@
    }

    /// A comparison with an empty record.
    pub fn new() -> (r: RbCompare)
        ensures
            r.spec_seen() == Map::<u128, u8>::empty(),
    {
        RbCompare { seen: HashMap::new() }
    }

    /// The deep order of `lhs`, a value of the graph `lctx`, and `rhs`, a
    /// value of the graph `rctx`. The record starts empty.
    pub fn cmp(&mut self, lctx: &RbContext, lhs: &RbAny, rctx: &RbContext, rhs: &RbAny) -> (r:
        Ordering)
        ensures
            r == (match spec_deep_order(lctx@, lhs@, rctx@, rhs@) {
                Rank::Less => Ordering::Less,
                Rank::Equal => Ordering::Equal,
                Rank::Greater => Ordering::Greater,
            }),
    {
        self.seen = HashMap::new();
        let total = Scope { total: pair_count(lctx.len(), rctx.len()), same: false };
        let v = self.cmp_any(lctx, lhs, rctx, rhs, total);
        rank_to_ordering(settled(v))
    }

    /// The deep order of two values of one graph. Where the contents of two
    /// objects have no order, their places in the graph decide. The record
    /// starts empty.
    pub fn cmp_within(&mut self, ctx: &RbContext, lhs: &RbAny, rhs: &RbAny) -> (r: Ordering)
        ensures
            r == (match spec_deep_order_within(ctx@, lhs@, rhs@) {
                Rank::Less => Ordering::Less,
                Rank::Equal => Ordering::Equal,
                Rank::Greater => Ordering::Greater,
            }),
    {
        self.seen = HashMap::new();
        let total = Scope { total: pair_count(ctx.len(), ctx.len()), same: true };
        let v = self.cmp_any(ctx, lhs, ctx, rhs, total);
        rank_to_ordering(settled(v))
    }

    fn cmp_any(
        &mut self,
        lctx: &RbContext,
        lhs: &RbAny,
        rctx: &RbContext,
        rhs: &RbAny,
        total: Scope,
    ) -> (r: Option<Rank>)
        ensures
            judged(
                *old(self),
                *final(self),
                ord_any(lctx@, rctx@, lhs@, rhs@, old(self).spec_seen(), total),
                r,
                total,
            ),
        decreases spec_room(old(self).spec_seen(), total), 0int, 0int,
    {
        match (lhs, rhs) {
            (RbAny::Int(l0), RbAny::Int(r0)) => Some(order_i32(*l0, *r0)),
            (RbAny::Symbol(l0), RbAny::Symbol(r0)) => Some(
                order_bytes(l0.as_bytes(), r0.as_bytes()),
            ),
            (RbAny::Ref(l0), RbAny::Ref(r0)) => {
                let by_place = order_usize(l0.index(), r0.index());
                let pair = RefPair::new(l0, r0).key();
                match (lctx.get(l0), rctx.get(r0)) {
                    (Some(ln), Some(rn)) => {
                        let known = match self.seen.get(&pair) {
                            Some(c) => Some(*c),
                            None => None,
                        };
                        match known {
                            Some(c) => outcome_of(c),
                            None => {
                                if !has_room(&self.seen, total.total) {
                                    Some(by_place)
                                } else {
                                    self.seen.insert(pair, 0);
                                    let new_ord = self.cmp_ref(lctx, ln, rctx, rn, total);
                                    let outcome = match new_ord {
                                        Some(v) => v,
                                        None => if total.same {
                                            by_place
                                        } else {
                                            order_loose(ln, rn)
                                        },
                                    };
                                    self.seen.insert(pair, code_of(outcome));
                                    Some(outcome)
                                }
                            },
                        }
                    },
                    _ => Some(by_place),
                }
            },
            _ => Some(order_usize(Self::any_id(lhs), Self::any_id(rhs))),
        }
    }

    fn cmp_ref(
        &mut self,
        lctx: &RbContext,
        lhs: &RbRef,
        rctx: &RbContext,
        rhs: &RbRef,
        total: Scope,
    ) -> (r: Option<Rank>)
        ensures
            judged(
                *old(self),
                *final(self),
                ord_ref(lctx@, rctx@, lhs@, rhs@, old(self).spec_seen(), total),
                r,
                total,
            ),
        decreases spec_room(old(self).spec_seen(), total), 4int, 0int,
    {
        if lhs.ordinal() != rhs.ordinal() {
            return Some(order_usize(lhs.ordinal(), rhs.ordinal()));
        }
        self.cmp_same(lctx, lhs, rctx, rhs, total)
    }

    #[verifier::rlimit(60)]
    fn cmp_same(
        &mut self,
        lctx: &RbContext,
        lhs: &RbRef,
        rctx: &RbContext,
        rhs: &RbRef,
        total: Scope,
    ) -> (r: Option<Rank>)
        requires
            spec_ordinal(lhs@) == spec_ordinal(rhs@),
        ensures
            judged(
                *old(self),
                *final(self),
                ord_same(lctx@, rctx@, lhs@, rhs@, old(self).spec_seen(), total),
                r,
                total,
            ),
        decreases spec_room(old(self).spec_seen(), total), 3int, 1int,
    {
        match (lhs, rhs) {
            (RbRef::Array(l0), RbRef::Array(r0)) => self.cmp_array(lctx, l0, rctx, r0, total),
            (RbRef::BigInt(l0), RbRef::BigInt(r0)) => Some(
                order_bigint(
                    l0.is_negative(),
                    l0.to_bytes_le(),
                    r0.is_negative(),
                    r0.to_bytes_le(),
                ),
            ),
            (RbRef::ClassModuleRef(l0), RbRef::ClassModuleRef(r0)) => Some(
                order_bytes(l0.as_str().as_bytes(), r0.as_str().as_bytes()),
            ),
            (RbRef::ClassRef(l0), RbRef::ClassRef(r0)) => Some(
                order_bytes(l0.as_str().as_bytes(), r0.as_str().as_bytes()),
            ),
            (RbRef::Data(l0), RbRef::Data(r0)) => self.cmp_symbol_any(
                lctx,
                &l0.name,
                &l0.data,
                rctx,
                &r0.name,
                &r0.data,
                total,
            ),
            (
                RbRef::Extended { module: l0mod, object: l0obj },
                RbRef::Extended { module: r0mod, object: r0obj },
            ) => self.cmp_symbol_any(lctx, l0mod, l0obj, rctx, r0mod, r0obj, total),
            (RbRef::Float(a), RbRef::Float(b)) => order_floats(a, b),
            (RbRef::Hash(l0), RbRef::Hash(r0)) => self.cmp_hash(lctx, l0, rctx, r0, total),
            (RbRef::ModuleRef(l0), RbRef::ModuleRef(r0)) => Some(
                order_bytes(l0.as_str().as_bytes(), r0.as_str().as_bytes()),
            ),
            (RbRef::Object(l0), RbRef::Object(r0)) => self.cmp_object(lctx, l0, rctx, r0, total),
            (
                RbRef::Regex { content: l_con, flags: l_flags },
                RbRef::Regex { content: r_con, flags: r_flags },
            ) => self.cmp_regex(
                lctx,
                l_con.as_str().as_bytes(),
                *l_flags,
                None,
                rctx,
                r_con.as_str().as_bytes(),
                *r_flags,
                None,
                total,
            ),
            (
                RbRef::RegexI { content: l_con, flags: l_flags, metadata: l_meta },
                RbRef::RegexI { content: r_con, flags: r_flags, metadata: r_meta },
            ) => self.cmp_regex(
                lctx,
                l_con.as_slice(),
                *l_flags,
                Some(l_meta),
                rctx,
                r_con.as_slice(),
                *r_flags,
                Some(r_meta),
                total,
            ),
            (RbRef::Str(l0), RbRef::Str(r0)) => Some(
                order_bytes(l0.as_str().as_bytes(), r0.as_str().as_bytes()),
            ),
            (
                RbRef::StrI { content: l_con, metadata: l_meta },
                RbRef::StrI { content: r_con, metadata: r_meta },
            ) => {
                let c0 = order_bytes(l_con.as_slice(), r_con.as_slice());
                match c0 {
                    Rank::Equal => self.cmp_fields(lctx, l_meta, rctx, r_meta, total),
                    _ => Some(c0),
                }
            },
            (RbRef::Struct(l0), RbRef::Struct(r0)) => self.cmp_object(lctx, l0, rctx, r0, total),
            (RbRef::UserClass(l0), RbRef::UserClass(r0)) => self.cmp_symbol_any(
                lctx,
                &l0.name,
                &l0.data,
                rctx,
                &r0.name,
                &r0.data,
                total,
            ),
            (RbRef::UserData(l0), RbRef::UserData(r0)) => {
                let c0 = order_bytes(l0.name.as_bytes(), r0.name.as_bytes());
                match c0 {
                    Rank::Equal => Some(order_bytes(l0.data.as_slice(), r0.data.as_slice())),
                    _ => Some(c0),
                }
            },
            (RbRef::UserMarshal(l0), RbRef::UserMarshal(r0)) => self.cmp_symbol_any(
                lctx,
                &l0.name,
                &l0.data,
                rctx,
                &r0.name,
                &r0.data,
                total,
            ),
            _ => Some(Rank::Equal),
        }
    }

    fn cmp_symbol_any(
        &mut self,
        lctx: &RbContext,
        l_sym: &RbSymbol,
        l_any: &RbAny,
        rctx: &RbContext,
        r_sym: &RbSymbol,
        r_any: &RbAny,
        total: Scope,
    ) -> (r: Option<Rank>)
        ensures
            judged(
                *old(self),
                *final(self),
                ord_symbol_any(
                    lctx@,
                    rctx@,
                    l_sym@,
                    l_any@,
                    r_sym@,
                    r_any@,
                    old(self).spec_seen(),
                    total,
                ),
                r,
                total,
            ),
        decreases spec_room(old(self).spec_seen(), total), 1int, 0int,
    {
        let c0 = order_bytes(l_sym.as_bytes(), r_sym.as_bytes());
        match c0 {
            Rank::Equal => self.cmp_any(lctx, l_any, rctx, r_any, total),
            _ => Some(c0),
        }
    }

    fn cmp_array(
        &mut self,
        lctx: &RbContext,
        l0: &Vec<RbAny>,
        rctx: &RbContext,
        r0: &Vec<RbAny>,
        total: Scope,
    ) -> (r: Option<Rank>)
        ensures
            judged(
                *old(self),
                *final(self),
                ord_same(
                    lctx@,
                    rctx@,
                    Node::Array(spec_values(l0@)),
                    Node::Array(spec_values(r0@)),
                    old(self).spec_seen(),
                    total,
                ),
                r,
                total,
            ),
        decreases spec_room(old(self).spec_seen(), total), 3int, 0int,
    {
        let ghost first = self.spec_seen();
        if l0.len() != r0.len() {
            return Some(order_usize(l0.len(), r0.len()));
        }
        let ghost x = spec_values(l0@);
        let ghost y = spec_values(r0@);
        let ghost want = ord_items(lctx@, rctx@, x, y, 0, self.spec_seen(), total);
        let mut i: usize = 0;
        while i < l0.len()
            invariant
                0 <= i <= l0@.len(),
                l0@.len() == r0@.len(),
                x == spec_values(l0@),
                y == spec_values(r0@),
                spec_room(self.spec_seen(), total) <= spec_room(old(self).spec_seen(), total),
                want == ord_items(lctx@, rctx@, x, y, 0, old(self).spec_seen(), total),
                want == ord_items(lctx@, rctx@, x, y, spec_ix(i), self.spec_seen(), total),
            decreases l0@.len() - i,
        {
            let c0 = settled(self.cmp_any(lctx, &l0[i], rctx, &r0[i], total));
            match c0 {
                Rank::Equal => {},
                _ => {
                    return Some(c0);
                },
            }
            i = i + 1;
        }
        Some(Rank::Equal)
    }

    #[verifier::rlimit(60)]
    fn cmp_hash(
        &mut self,
        lctx: &RbContext,
        l0: &RbHash,
        rctx: &RbContext,
        r0: &RbHash,
        total: Scope,
    ) -> (r: Option<Rank>)
        ensures
            judged(
                *old(self),
                *final(self),
                ord_hash(
                    lctx@,
                    rctx@,
                    l0@,
                    l0.spec_default(),
                    r0@,
                    r0.spec_default(),
                    old(self).spec_seen(),
                    total,
                ),
                r,
                total,
            ),
        decreases spec_room(old(self).spec_seen(), total), 2int, 0int,
    {
        let n = l0.len();
        if n != r0.len() {
            return Some(order_usize(n, r0.len()));
        }
        let ghost want = ord_entries(lctx@, rctx@, l0@, r0@, 0, self.spec_seen(), total);
        let mut i: usize = 0;
        while i < n
            invariant
                0 <= i <= n,
                n == l0@.len(),
                n == r0@.len(),
                spec_room(self.spec_seen(), total) <= spec_room(old(self).spec_seen(), total),
                want == ord_entries(lctx@, rctx@, l0@, r0@, 0, old(self).spec_seen(), total),
                want == ord_entries(lctx@, rctx@, l0@, r0@, spec_ix(i), self.spec_seen(), total),
            decreases n - i,
        {
            match (l0.get_index(i), r0.get_index(i)) {
                (Some((lkey, lval)), Some((rkey, rval))) => {
                    let c0 = settled(self.cmp_any(lctx, lkey, rctx, rkey, total));
                    match c0 {
                        Rank::Equal => {},
                        _ => {
                            return Some(c0);
                        },
                    }
                    let c1 = settled(self.cmp_any(lctx, lval, rctx, rval, total));
                    match c1 {
                        Rank::Equal => {},
                        _ => {
                            return Some(c1);
                        },
                    }
                },
                _ => {},
            }
            i = i + 1;
        }
        match (l0.default_value(), r0.default_value()) {
            (None, None) => Some(Rank::Equal),
            (None, Some(_)) => Some(Rank::Less),
            (Some(_), None) => Some(Rank::Greater),
            (Some(a), Some(b)) => Some(settled(self.cmp_any(lctx, a, rctx, b, total))),
        }
    }

    fn cmp_object(
        &mut self,
        lctx: &RbContext,
        l0: &RbObject,
        rctx: &RbContext,
        r0: &RbObject,
        total: Scope,
    ) -> (r: Option<Rank>)
        ensures
            judged(
                *old(self),
                *final(self),
                ord_object(
                    lctx@,
                    rctx@,
                    l0.name@,
                    l0.fields@,
                    r0.name@,
                    r0.fields@,
                    old(self).spec_seen(),
                    total,
                ),
                r,
                total,
            ),
        decreases spec_room(old(self).spec_seen(), total), 3int, 0int,
    {
        let c0 = order_bytes(l0.name.as_bytes(), r0.name.as_bytes());
        match c0 {
            Rank::Equal => self.cmp_fields(lctx, &l0.fields, rctx, &r0.fields, total),
            _ => Some(c0),
        }
    }

    fn cmp_regex(
        &mut self,
        lctx: &RbContext,
        l_con: &[u8],
        l_flags: u32,
        l_meta: Option<&RbFields>,
        rctx: &RbContext,
        r_con: &[u8],
        r_flags: u32,
        r_meta: Option<&RbFields>,
        total: Scope,
    ) -> (r: Option<Rank>)
        ensures
            judged(
                *old(self),
                *final(self),
                ord_regex(
                    lctx@,
                    rctx@,
                    l_con@,
                    l_flags,
                    spec_meta(l_meta),
                    r_con@,
                    r_flags,
                    spec_meta(r_meta),
                    old(self).spec_seen(),
                    total,
                ),
                r,
                total,
            ),
        decreases spec_room(old(self).spec_seen(), total), 3int, 0int,
    {
        let c0 = order_bytes(l_con, r_con);
        match c0 {
            Rank::Equal => {
                let c1 = order_u32(l_flags, r_flags);
                match (c1, l_meta, r_meta) {
                    (Rank::Equal, Some(a), Some(b)) => self.cmp_fields(lctx, a, rctx, b, total),
                    _ => Some(c1),
                }
            },
            _ => Some(c0),
        }
    }

    fn cmp_fields(
        &mut self,
        lctx: &RbContext,
        l_meta: &RbFields,
        rctx: &RbContext,
        r_meta: &RbFields,
        total: Scope,
    ) -> (r: Option<Rank>)
        ensures
            judged(
                *old(self),
                *final(self),
                ord_fields(lctx@, rctx@, l_meta@, r_meta@, old(self).spec_seen(), total),
                r,
                total,
            ),
        decreases spec_room(old(self).spec_seen(), total), 2int, 0int,
    {
        let n = l_meta.len();
        if n != r_meta.len() {
            return Some(order_usize(n, r_meta.len()));
        }
        let ghost want = ord_fields_from(lctx@, rctx@, l_meta@, r_meta@, 0, self.spec_seen(), total);
        let mut i: usize = 0;
        while i < n
            invariant
                0 <= i <= n,
                n == l_meta@.len(),
                n == r_meta@.len(),
                spec_room(self.spec_seen(), total) <= spec_room(old(self).spec_seen(), total),
                want == ord_fields_from(
                    lctx@,
                    rctx@,
                    l_meta@,
                    r_meta@,
                    0,
                    old(self).spec_seen(),
                    total,
                ),
                want == ord_fields_from(
                    lctx@,
                    rctx@,
                    l_meta@,
                    r_meta@,
                    spec_ix(i),
                    self.spec_seen(),
                    total,
                ),
            decreases n - i,
        {
            match (l_meta.get_index(i), r_meta.get_index(i)) {
                (Some((lk, lv)), Some((rk, rv))) => {
                    let c0 = order_bytes(lk.as_bytes(), rk.as_bytes());
                    match c0 {
                        Rank::Equal => {},
                        _ => {
                            return Some(c0);
                        },
                    }
                    let c1 = settled(self.cmp_any(lctx, lv, rctx, rv, total));
                    match c1 {
                        Rank::Equal => {},
                        _ => {
                            return Some(c1);
                        },
                    }
                },
                _ => {},
            }
            i = i + 1;
        }
        Some(Rank::Equal)
    }

    fn any_id(a: &RbAny) -> (r: usize)
        ensures
            r == spec_any_id(a@),
    {
        match a {
            RbAny::Nil => 0,
            RbAny::False => 1,
            RbAny::True => 2,
            RbAny::Int(_) => 3,
            RbAny::Symbol(_) => 4,
            RbAny::Ref(_) => 5,
        }
    }
}

impl RbAny {
    /// The deep order of this value, of the graph `ctx`, and `other`, of
    /// the graph `other_ctx`: by kind first and content second, through
    /// handles, and finite on graphs that lead back to themselves. The
    /// places of objects play no part, but for handles that name no object.
    pub fn deep_cmp(&self, ctx: &RbContext, other: &RbAny, other_ctx: &RbContext) -> (r: Ordering)
        ensures
            r == (match spec_deep_order(ctx@, self@, other_ctx@, other@) {
                Rank::Less => Ordering::Less,
                Rank::Equal => Ordering::Equal,
                Rank::Greater => Ordering::Greater,
            }),
    {
        let mut c = RbCompare::new();
        c.cmp(ctx, self, other_ctx, other)
    }

    /// Whether the two values, each of its own graph, are equal in the deep
    /// order.
    pub fn deep_eq(&self, ctx: &RbContext, other: &RbAny, other_ctx: &RbContext) -> (r: bool)
        ensures
            r == (spec_deep_order(ctx@, self@, other_ctx@, other@) == Rank::Equal),
    {
        match self.deep_cmp(ctx, other, other_ctx) {
            Ordering::Equal => true,
            _ => false,
        }
    }

    /// The deep order of this value and `other`, both of the graph `ctx`.
    /// Two objects whose contents have no order, such as a float that is no
    /// number and any other float, are ordered by their places: an object
    /// equals itself and no other.
    pub fn deep_cmp_within(&self, ctx: &RbContext, other: &RbAny) -> (r: Ordering)
        ensures
            r == (match spec_deep_order_within(ctx@, self@, other@) {
                Rank::Less => Ordering::Less,
                Rank::Equal => Ordering::Equal,
                Rank::Greater => Ordering::Greater,
            }),
    {
        let mut c = RbCompare::new();
        c.cmp_within(ctx, self, other)
    }

    /// Whether two values of one graph are equal in the deep order.
    pub fn deep_eq_within(&self, ctx: &RbContext, other: &RbAny) -> (r: bool)
        ensures
            r == (spec_deep_order_within(ctx@, self@, other@) == Rank::Equal),
    {
        match self.deep_cmp_within(ctx, other) {
            Ordering::Equal => true,
            _ => false,
        }
    }
}

} // verus!
