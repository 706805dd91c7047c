use thurgood::{
    rc_get_ptr, RbAny, RbBigInt, RbClass, RbContext, RbFields, RbFloat, RbHash, RbObject, RbRef,
    RbSymbol, RbType, RbUserData, ThurgoodError,
};

fn sym(s: &str) -> RbSymbol {
    RbSymbol::from_str(s)
}

fn string(cx: &mut RbContext, s: &str) -> RbAny {
    cx.store(RbRef::Str(s.to_owned())).unwrap()
}

#[test]
fn symbol_holds_its_bytes() {
    let s = RbSymbol::new(vec![0x61, 0x62]);
    assert_eq!(s.as_bytes(), &[0x61, 0x62]);
    assert_eq!(s.as_str(), Some("ab"));
    assert!(s.same(&sym("ab")));
    assert!(!s.same(&sym("abc")));
    assert_eq!(s.clone(), s);
    assert_eq!(RbSymbol::default().as_bytes(), &[] as &[u8]);
    assert_eq!(sym("héllo").as_bytes(), "héllo".as_bytes());
}

#[test]
fn symbol_that_is_not_utf8_has_no_text() {
    let s = RbSymbol::new(vec![0xc3, 0x28]);
    assert_eq!(s.as_str(), None);
    assert_eq!(s.as_bytes(), &[0xc3, 0x28]);
    assert_eq!(RbSymbol::new(vec![]).as_str(), Some(""));
}

#[test]
fn symbols_order_by_their_bytes() {
    assert!(sym("a") < sym("b"));
    assert!(sym("a") < sym("aa"));
    assert!(RbSymbol::new(vec![0x7f]) < RbSymbol::new(vec![0x80]));
}

#[test]
fn scalar_accessors() {
    assert_eq!(RbAny::Int(7).as_int(), Some(7));
    assert_eq!(RbAny::Nil.as_int(), None);
    assert_eq!(RbAny::True.as_bool(), Some(true));
    assert_eq!(RbAny::False.as_bool(), Some(false));
    assert_eq!(RbAny::Int(1).as_bool(), None);
    assert!(RbAny::Nil.is_nil());
    assert!(!RbAny::False.is_nil());
    assert_eq!(RbAny::default(), RbAny::Nil);
    let s = RbAny::symbol_from("key");
    assert_eq!(s.as_symbol(), Some(&sym("key")));
    assert_eq!(RbAny::Int(1).as_symbol(), None);
    assert_eq!(sym("key").as_any(), s);
    assert!(s.same(&RbAny::symbol_from("key")));
    assert!(!s.same(&RbAny::symbol_from("kez")));
    assert!(!RbAny::True.same(&RbAny::False));
    assert_eq!(RbAny::Int(3).as_rc(), None);
}

#[test]
fn values_from_plain_data() {
    assert_eq!(RbAny::from(25), RbAny::Int(25));
    assert_eq!(RbAny::from(true), RbAny::True);
    assert_eq!(RbAny::from(false), RbAny::False);
    assert_eq!(RbAny::from(sym("a")), RbAny::symbol_from("a"));
    let v: RbAny = 7.into();
    assert_eq!(v.as_int(), Some(7));
}

#[test]
fn value_types() {
    let mut cx = RbContext::new();
    let s = string(&mut cx, "x");
    let a = cx.store(RbRef::Array(vec![])).unwrap();
    assert_eq!(RbAny::Int(1).get_type(&cx), RbType::Int);
    assert_eq!(RbAny::True.get_type(&cx), RbType::Bool);
    assert_eq!(RbAny::False.get_type(&cx), RbType::Bool);
    assert_eq!(RbAny::Nil.get_type(&cx), RbType::Nil);
    assert_eq!(RbAny::symbol_from("a").get_type(&cx), RbType::Symbol);
    assert_eq!(s.get_type(&cx), RbType::Str);
    assert_eq!(a.get_type(&cx), RbType::Array);
    let other = RbContext::new();
    assert_eq!(a.get_type(&other), RbType::ObjectRef);
}

#[test]
fn object_kinds_types_and_ordinals() {
    let f = RbFields::new();
    let kinds: Vec<(RbRef, RbType, usize, bool)> = vec![
        (RbRef::Array(vec![]), RbType::Array, 0, true),
        (RbRef::BigInt(RbBigInt::from_bytes_le(false, &[1])), RbType::BigInt, 1, false),
        (RbRef::ClassModuleRef("A".into()), RbType::ClassModuleRef, 2, false),
        (RbRef::ClassRef("A".into()), RbType::ClassRef, 3, false),
        (RbRef::Data(RbClass { name: sym("A"), data: RbAny::Nil }), RbType::Data, 4, true),
        (RbRef::Extended { module: sym("M"), object: RbAny::Nil }, RbType::Extended, 5, true),
        (RbRef::Float(RbFloat::parse(b"1.5").unwrap()), RbType::Float, 6, false),
        (RbRef::Hash(RbHash::new()), RbType::Hash, 7, true),
        (RbRef::ModuleRef("A".into()), RbType::ModuleRef, 8, false),
        (RbRef::Object(RbObject::new(&sym("A"))), RbType::Object, 9, true),
        (RbRef::new_regex("a+".into(), 1), RbType::Regex, 10, false),
        (
            RbRef::RegexI { content: vec![1], flags: 0, metadata: f.clone() },
            RbType::Regex,
            11,
            true,
        ),
        (RbRef::Str("s".into()), RbType::Str, 12, false),
        (RbRef::StrI { content: vec![1], metadata: f.clone() }, RbType::Str, 13, true),
        (RbRef::Struct(RbObject::new(&sym("A"))), RbType::Struct, 14, true),
        (RbRef::UserClass(RbClass { name: sym("A"), data: RbAny::Nil }), RbType::UserClass, 15, true),
        (
            RbRef::UserData(RbUserData { name: sym("A"), data: vec![1, 2] }),
            RbType::UserData,
            16,
            false,
        ),
        (
            RbRef::UserMarshal(RbClass { name: sym("A"), data: RbAny::Nil }),
            RbType::UserMarshal,
            17,
            true,
        ),
    ];
    for (node, ty, ordinal, holds) in kinds.iter() {
        assert_eq!(node.get_type(), *ty);
        assert_eq!(node.ordinal(), *ordinal);
        assert_eq!(node.contains_ref(), *holds);
    }
}

#[test]
fn partial_eq_of_objects_without_values() {
    let a = RbRef::Str("a".into());
    assert_eq!(a.partial_eq(&RbRef::Str("a".into())), Some(true));
    assert_eq!(a.partial_eq(&RbRef::Str("b".into())), Some(false));
    assert_eq!(a.partial_eq(&RbRef::Array(vec![])), Some(false));
    assert_eq!(RbRef::Array(vec![]).partial_eq(&RbRef::Array(vec![])), None);
    assert_eq!(
        RbRef::ClassModuleRef("A".into()).partial_eq(&RbRef::ClassRef("A".into())),
        Some(true)
    );
    assert_eq!(
        RbRef::ModuleRef("A".into()).partial_eq(&RbRef::ClassModuleRef("A".into())),
        Some(true)
    );
    assert_eq!(RbRef::ClassRef("A".into()).partial_eq(&RbRef::ModuleRef("A".into())), Some(false));
    assert_eq!(
        RbRef::new_regex("x".into(), 1).partial_eq(&RbRef::new_regex("x".into(), 2)),
        Some(false)
    );
    let one = RbRef::Float(RbFloat::parse(b"1.0").unwrap());
    let nan = RbRef::Float(RbFloat::parse(b"nan").unwrap());
    assert_eq!(one.partial_eq(&one.clone()), Some(true));
    assert_eq!(one.partial_eq(&RbRef::Float(RbFloat::parse(b"1").unwrap())), Some(true));
    assert_eq!(one.partial_eq(&RbRef::Float(RbFloat::parse(b"10e-1").unwrap())), Some(true));
    assert_eq!(one.partial_eq(&RbRef::Float(RbFloat::parse(b"1.5").unwrap())), Some(false));
    assert_eq!(nan.partial_eq(&nan.clone()), Some(false));
    let big = RbRef::BigInt(RbBigInt::from_bytes_le(true, &[5]));
    assert_eq!(big.partial_eq(&RbRef::BigInt(RbBigInt::from_bytes_le(true, &[5, 0]))), Some(true));
    assert_eq!(big.partial_eq(&RbRef::BigInt(RbBigInt::from_bytes_le(false, &[5]))), Some(false));
    let ud = RbRef::UserData(RbUserData { name: sym("A"), data: vec![1] });
    assert_eq!(
        ud.partial_eq(&RbRef::UserData(RbUserData { name: sym("A"), data: vec![1] })),
        Some(true)
    );
}

#[test]
fn object_accessors() {
    let arr = RbRef::Array(vec![RbAny::Int(1)]);
    assert_eq!(arr.as_array().map(|v| v.len()), Some(1));
    assert!(arr.as_hash().is_none());
    assert!(arr.as_object().is_none());
    assert!(arr.as_struct().is_none());
    assert!(arr.as_string().is_none());
    assert!(arr.as_float().is_none());
    assert_eq!(RbRef::Str("s".into()).as_string(), Some(&"s".to_owned()));
    assert!(RbRef::Hash(RbHash::new()).as_hash().is_some());
    assert!(RbObject::new(&sym("A")).into_object().as_object().is_some());
    assert!(RbObject::new(&sym("A")).into_struct().as_struct().is_some());
    assert!(RbObject::new(&sym("A")).into_struct().as_object().is_none());
    let f = RbRef::Float(RbFloat::parse(b"2.5").unwrap());
    assert_eq!(f.as_float().map(|x| x.as_bytes().to_vec()), Some(b"2.5".to_vec()));
}

#[test]
fn fields_keep_insertion_order() {
    let mut f = RbFields::new();
    assert_eq!(f.len(), 0);
    assert_eq!(f.insert(sym("b"), RbAny::Int(1)), None);
    assert_eq!(f.insert(sym("a"), RbAny::Int(2)), None);
    assert_eq!(f.insert(sym("c"), RbAny::Int(3)), None);
    assert_eq!(f.len(), 3);
    assert_eq!(f.get_index(0), Some((&sym("b"), &RbAny::Int(1))));
    assert_eq!(f.get_index(1), Some((&sym("a"), &RbAny::Int(2))));
    assert_eq!(f.get_index(2), Some((&sym("c"), &RbAny::Int(3))));
    assert_eq!(f.get_index(3), None);
    assert_eq!(f.get_index_of(&sym("a")), Some(1));
    assert_eq!(f.get_index_of(&sym("z")), None);
    assert_eq!(f.get(&sym("c")), Some(&RbAny::Int(3)));
    assert_eq!(f.get(&sym("z")), None);
    assert!(f.contains_key(&sym("b")));
    assert!(!f.contains_key(&sym("z")));
}

#[test]
fn fields_insert_of_a_present_key_keeps_its_place() {
    let mut f = RbFields::new();
    f.insert(sym("a"), RbAny::Int(1));
    f.insert(sym("b"), RbAny::Int(2));
    assert_eq!(f.insert(sym("a"), RbAny::Int(9)), Some(RbAny::Int(1)));
    assert_eq!(f.len(), 2);
    assert_eq!(f.get_index(0), Some((&sym("a"), &RbAny::Int(9))));
    assert_eq!(f.get_index(1), Some((&sym("b"), &RbAny::Int(2))));
    let g = f.clone();
    assert_eq!(g.len(), 2);
    assert_eq!(g.get_index(0), Some((&sym("a"), &RbAny::Int(9))));
}

#[test]
fn hash_keeps_insertion_order_and_default() {
    let mut h = RbHash::new();
    assert_eq!(h.len(), 0);
    assert_eq!(h.default_value(), None);
    assert_eq!(h.insert(RbAny::Int(2), RbAny::True), None);
    assert_eq!(h.insert(RbAny::symbol_from("k"), RbAny::False), None);
    assert_eq!(h.insert(RbAny::Nil, RbAny::Int(0)), None);
    assert_eq!(h.insert(RbAny::Int(2), RbAny::Nil), Some(RbAny::True));
    assert_eq!(h.len(), 3);
    assert_eq!(h.get_index(0), Some((&RbAny::Int(2), &RbAny::Nil)));
    assert_eq!(h.get_index(1), Some((&RbAny::symbol_from("k"), &RbAny::False)));
    assert_eq!(h.get_index(2), Some((&RbAny::Nil, &RbAny::Int(0))));
    assert_eq!(h.get_index(3), None);
    assert_eq!(h.get_index_of(&RbAny::Nil), Some(2));
    assert_eq!(h.get_index_of(&RbAny::Int(3)), None);
    assert_eq!(h.get(&RbAny::symbol_from("k")), Some(&RbAny::False));
    assert_eq!(h.get(&RbAny::True), None);
    h.set_default(Some(RbAny::Int(5)));
    assert_eq!(h.default_value(), Some(&RbAny::Int(5)));
    let c = h.clone();
    assert_eq!(c.len(), 3);
    assert_eq!(c.default_value(), Some(&RbAny::Int(5)));
    h.set_default(None);
    assert_eq!(h.default_value(), None);
}

#[test]
fn hash_from_pairs_drops_repeated_keys() {
    let h = RbHash::from_pairs(vec![
        (RbAny::Int(1), RbAny::Int(10)),
        (RbAny::Int(2), RbAny::Int(20)),
        (RbAny::Int(1), RbAny::Int(30)),
    ]);
    assert_eq!(h.len(), 2);
    assert_eq!(h.get_index(0), Some((&RbAny::Int(1), &RbAny::Int(30))));
    assert_eq!(h.get_index(1), Some((&RbAny::Int(2), &RbAny::Int(20))));
}

#[test]
fn hash_keys_that_are_handles_go_by_identity() {
    let mut cx = RbContext::new();
    let a = string(&mut cx, "same");
    let b = string(&mut cx, "same");
    let mut h = RbHash::new();
    h.insert(a.clone(), RbAny::Int(1));
    h.insert(b.clone(), RbAny::Int(2));
    assert_eq!(h.len(), 2);
    assert_eq!(h.get(&a), Some(&RbAny::Int(1)));
    assert_eq!(h.get(&b), Some(&RbAny::Int(2)));
}

#[test]
fn object_fields() {
    let mut o = RbObject::new(&sym("Foo"));
    assert_eq!(o.name, sym("Foo"));
    assert_eq!(o.fields.len(), 0);
    assert_eq!(o.insert(sym("@a"), RbAny::Int(1)), None);
    assert_eq!(o.insert(sym("@a"), RbAny::Int(2)), Some(RbAny::Int(1)));
    assert_eq!(o.get(&sym("@a")), Some(&RbAny::Int(2)));
    assert_eq!(o.get(&sym("@b")), None);
    let mut more = RbFields::new();
    more.insert(sym("@b"), RbAny::True);
    more.insert(sym("@a"), RbAny::Int(3));
    o.extend_from_pairs(&more);
    assert_eq!(o.fields.len(), 2);
    assert_eq!(o.fields.get_index(0), Some((&sym("@a"), &RbAny::Int(3))));
    assert_eq!(o.fields.get_index(1), Some((&sym("@b"), &RbAny::True)));
    let p = RbObject::new_from_slice(
        sym("Bar"),
        &[(sym("x"), RbAny::Int(1)), (sym("y"), RbAny::Int(2)), (sym("x"), RbAny::Int(3))],
    );
    assert_eq!(p.fields.len(), 2);
    assert_eq!(p.get(&sym("x")), Some(&RbAny::Int(3)));
    let q = p.clone();
    assert_eq!(q.name, sym("Bar"));
    assert_eq!(q.fields.len(), 2);
}

#[test]
fn big_integers_take_normal_form() {
    let zero = RbBigInt::from_bytes_le(true, &[0, 0, 0]);
    assert!(!zero.is_negative());
    assert_eq!(zero.to_bytes_le(), &[0]);
    let empty = RbBigInt::from_bytes_le(false, &[]);
    assert_eq!(empty.to_bytes_le(), &[0]);
    let one = RbBigInt::from_bytes_le(false, &[1, 0, 0]);
    assert_eq!(one.to_bytes_le(), &[1]);
    assert!(!one.is_negative());
    let minus = RbBigInt::from_bytes_le(true, &[0, 1, 0, 0]);
    assert!(minus.is_negative());
    assert_eq!(minus.to_bytes_le(), &[0, 1]);
    assert_eq!(minus, RbBigInt::from_bytes_le(true, &[0, 1]));
    assert_eq!(minus.clone(), minus);
}

#[test]
fn big_integers_agree_with_num_bigint() {
    let values = ["0", "1", "-1", "65536", "-4294967296", "123456789012345678901234567890"];
    for text in values {
        let n: num_bigint::BigInt = text.parse().unwrap();
        let (sign, bytes) = n.to_bytes_le();
        let b = RbBigInt::from_bytes_le(sign == num_bigint::Sign::Minus, &bytes);
        assert_eq!(b.to_bytes_le(), bytes.as_slice());
        assert_eq!(b.is_negative(), sign == num_bigint::Sign::Minus);
    }
}

#[test]
fn context_stores_objects_in_order() {
    let mut cx = RbContext::new();
    assert_eq!(cx.len(), 0);
    let a = string(&mut cx, "a");
    let b = cx.store(RbRef::Array(vec![a.clone(), RbAny::Int(1)])).unwrap();
    assert_eq!(cx.len(), 2);
    let ia = a.as_rc().unwrap();
    let ib = b.as_rc().unwrap();
    assert_eq!(ia.index(), 0);
    assert_eq!(ib.index(), 1);
    assert_eq!(rc_get_ptr(&ib), 1);
    assert!(cx.contains(&a));
    assert!(cx.contains(&RbAny::Int(4)));
    assert_eq!(cx.get(&ia).unwrap().as_string(), Some(&"a".to_owned()));
    assert_eq!(cx.get(&ib).unwrap().as_array().unwrap().len(), 2);
    let other = RbContext::new();
    assert!(other.get(&ia).is_none());
    assert!(!other.contains(&a));
}

#[test]
fn context_hands_out_the_handle_of_a_place() {
    let mut cx = RbContext::new();
    let a = string(&mut cx, "a");
    assert_eq!(cx.handle(0), Some(a));
    assert_eq!(cx.handle(1), None);
}

#[test]
fn context_refuses_handles_of_no_object() {
    let mut cx = RbContext::new();
    let mut other = RbContext::new();
    string(&mut other, "x");
    let far = string(&mut other, "y");
    assert_eq!(cx.store(RbRef::Array(vec![far.clone()])), Err(ThurgoodError::BadObjectRef(0)));
    assert_eq!(cx.len(), 0);
    let a = cx.store(RbRef::Array(vec![])).unwrap();
    assert_eq!(
        cx.store(RbRef::Data(RbClass { name: sym("D"), data: far.clone() })),
        Err(ThurgoodError::BadObjectRef(1))
    );
    let id = a.as_rc().unwrap();
    assert_eq!(cx.set(&id, RbRef::Array(vec![far.clone()])), Err(ThurgoodError::BadObjectRef(0)));
    assert_eq!(cx.get(&id).unwrap().as_array().unwrap().len(), 0);
    assert_eq!(
        cx.set(&far.as_rc().unwrap(), RbRef::Array(vec![])),
        Err(ThurgoodError::BadObjectRef(1))
    );
    let mut h = RbHash::new();
    h.insert(RbAny::Int(1), far.clone());
    assert_eq!(cx.store(RbRef::Hash(h)), Err(ThurgoodError::BadObjectRef(1)));
    let mut d = RbHash::new();
    d.set_default(Some(far.clone()));
    assert_eq!(cx.store(RbRef::Hash(d)), Err(ThurgoodError::BadObjectRef(1)));
    let o = RbObject::new_from_slice(sym("O"), &[(sym("f"), far.clone())]);
    assert_eq!(cx.store(RbRef::Object(o)), Err(ThurgoodError::BadObjectRef(1)));
    assert_eq!(cx.len(), 1);
}

#[test]
fn context_set_can_make_an_object_refer_to_itself() {
    let mut cx = RbContext::new();
    let a = cx.store(RbRef::Array(vec![])).unwrap();
    let id = a.as_rc().unwrap();
    assert_eq!(cx.set(&id, RbRef::Array(vec![a.clone()])), Ok(()));
    let inner = cx.get(&id).unwrap().as_array().unwrap()[0].clone();
    assert_eq!(inner, a);
}

#[test]
fn extended_object_wraps_an_earlier_object() {
    let mut cx = RbContext::new();
    let a = cx.store(RbRef::Array(vec![])).unwrap();
    let e = cx.store(RbRef::Extended { module: sym("M"), object: a.clone() }).unwrap();
    let eid = e.as_rc().unwrap();
    assert_eq!(
        cx.set(&eid, RbRef::Extended { module: sym("M"), object: e.clone() }),
        Err(ThurgoodError::BadObjectRef(1))
    );
    assert_eq!(
        cx.set(&a.as_rc().unwrap(), RbRef::Extended { module: sym("M"), object: e.clone() }),
        Err(ThurgoodError::BadObjectRef(0))
    );
    assert_eq!(cx.set(&eid, RbRef::Extended { module: sym("N"), object: a.clone() }), Ok(()));
    assert_eq!(cx.set(&a.as_rc().unwrap(), RbRef::Array(vec![e.clone()])), Ok(()));
}

#[test]
fn children_of_objects() {
    let mut cx = RbContext::new();
    let s = string(&mut cx, "leaf");
    let arr = cx.store(RbRef::Array(vec![RbAny::Int(10), s.clone()])).unwrap();
    let hash = cx
        .store(RbRef::Hash(RbHash::from_pairs(vec![(RbAny::symbol_from("k"), arr.clone())])))
        .unwrap();
    let obj = cx
        .store(RbRef::new_object(sym("O"), &[(sym("@h"), hash.clone())]))
        .unwrap();
    let data = cx.store(RbRef::Data(RbClass { name: sym("D"), data: obj.clone() })).unwrap();
    let ext = cx.store(RbRef::Extended { module: sym("M"), object: data.clone() }).unwrap();
    let node = cx.get(&arr.as_rc().unwrap()).unwrap();
    assert_eq!(node.get_child(&cx, &RbAny::Int(0)), Some(&RbAny::Int(10)));
    assert_eq!(node.get_child(&cx, &RbAny::Int(1)), Some(&s));
    assert_eq!(node.get_child(&cx, &RbAny::Int(2)), None);
    assert_eq!(node.get_child(&cx, &RbAny::Int(-1)), None);
    assert_eq!(node.get_child(&cx, &RbAny::symbol_from("k")), None);
    let leaf = cx.get(&s.as_rc().unwrap()).unwrap();
    assert_eq!(leaf.get_child(&cx, &RbAny::Int(0)), None);
    let path = vec![
        RbAny::symbol_from("@h"),
        RbAny::symbol_from("k"),
        RbAny::Int(1),
    ];
    assert_eq!(RbAny::find_child(&cx, &ext, &path), Some(&s));
    assert_eq!(RbAny::find_child(&cx, &obj, &path), Some(&s));
    assert_eq!(RbAny::find_child(&cx, &obj, &[]), Some(&obj));
    assert_eq!(RbAny::find_child(&cx, &obj, &[RbAny::symbol_from("@x")]), None);
    assert_eq!(RbAny::find_child(&cx, &RbAny::Int(1), &[RbAny::Int(0)]), None);
    assert_eq!(obj.as_object(&cx).map(|o| o.name.clone()), Some(sym("O")));
    assert_eq!(arr.as_array(&cx).map(|a| a.len()), Some(2));
    assert_eq!(hash.as_hash(&cx).map(|h| h.len()), Some(1));
    assert_eq!(s.as_string(&cx), Some(&"leaf".to_owned()));
    assert!(s.as_array(&cx).is_none());
    assert!(RbAny::Int(1).as_rbref(&cx).is_none());
}

#[test]
fn children_of_a_wrapping_that_leads_back_to_itself() {
    let mut cx = RbContext::new();
    let d = cx.store(RbRef::Data(RbClass { name: sym("D"), data: RbAny::Nil })).unwrap();
    let id = d.as_rc().unwrap();
    cx.set(&id, RbRef::Data(RbClass { name: sym("D"), data: d.clone() })).unwrap();
    let node = cx.get(&id).unwrap();
    assert_eq!(node.get_child(&cx, &RbAny::Int(0)), None);
    assert_eq!(RbAny::find_child(&cx, &d, &[RbAny::Int(0)]), None);
}

#[test]
fn error_constructor() {
    assert_eq!(
        ThurgoodError::unexpected_type(RbType::Symbol, RbType::Int),
        ThurgoodError::UnexpectedType { expected: RbType::Symbol, found: RbType::Int }
    );
}
