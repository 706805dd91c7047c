use std::cmp::Ordering;
use thurgood::{
    RbAny, RbBigInt, RbClass, RbCompare, RbContext, RbFields, RbFloat, RbHash, RbObject, RbRef,
    RbSymbol, RbUserData, RefPair,
};

fn sym(s: &str) -> RbSymbol {
    RbSymbol::from_str(s)
}

fn cmp(cx: &RbContext, a: &RbAny, b: &RbAny) -> Ordering {
    a.deep_cmp(cx, b, cx)
}

fn float(cx: &mut RbContext, text: &str) -> RbAny {
    cx.store(RbRef::Float(RbFloat::parse(text.as_bytes()).unwrap())).unwrap()
}

fn big(cx: &mut RbContext, text: &str) -> RbAny {
    let n: num_bigint::BigInt = text.parse().unwrap();
    let (sign, bytes) = n.to_bytes_le();
    cx.store(RbRef::BigInt(RbBigInt::from_bytes_le(sign == num_bigint::Sign::Minus, &bytes)))
        .unwrap()
}

#[test]
fn deep_order_of_kinds() {
    let mut cx = RbContext::new();
    let obj = cx.store(RbRef::Array(vec![])).unwrap();
    let ladder = vec![
        RbAny::Nil,
        RbAny::False,
        RbAny::True,
        RbAny::Int(-5),
        RbAny::symbol_from("a"),
        obj,
    ];
    for i in 0..ladder.len() {
        for j in 0..ladder.len() {
            assert_eq!(cmp(&cx, &ladder[i], &ladder[j]), i.cmp(&j), "{} {}", i, j);
        }
    }
}

#[test]
fn deep_order_of_scalars() {
    let cx = RbContext::new();
    assert_eq!(cmp(&cx, &RbAny::Int(1), &RbAny::Int(2)), Ordering::Less);
    assert_eq!(cmp(&cx, &RbAny::Int(-1), &RbAny::Int(-2)), Ordering::Greater);
    assert_eq!(cmp(&cx, &RbAny::Int(7), &RbAny::Int(7)), Ordering::Equal);
    assert_eq!(cmp(&cx, &RbAny::symbol_from("a"), &RbAny::symbol_from("ab")), Ordering::Less);
    assert_eq!(cmp(&cx, &RbAny::symbol_from("b"), &RbAny::symbol_from("ab")), Ordering::Greater);
    assert!(RbAny::symbol_from("x").deep_eq(&cx, &RbAny::symbol_from("x"), &cx));
    assert!(!RbAny::Nil.deep_eq(&cx, &RbAny::False, &cx));
}

#[test]
fn deep_order_of_object_kinds_is_alphabetical() {
    let mut cx = RbContext::new();
    let f = RbFields::new();
    let nodes = vec![
        RbRef::Array(vec![]),
        RbRef::BigInt(RbBigInt::from_bytes_le(false, &[1])),
        RbRef::ClassModuleRef("A".into()),
        RbRef::ClassRef("A".into()),
        RbRef::Data(RbClass { name: sym("A"), data: RbAny::Nil }),
        RbRef::Extended { module: sym("M"), object: RbAny::Nil },
        RbRef::Float(RbFloat::parse(b"1").unwrap()),
        RbRef::Hash(RbHash::new()),
        RbRef::ModuleRef("A".into()),
        RbRef::Object(RbObject::new(&sym("A"))),
        RbRef::new_regex("a".into(), 0),
        RbRef::RegexI { content: vec![1], flags: 0, metadata: f.clone() },
        RbRef::Str("s".into()),
        RbRef::StrI { content: vec![1], metadata: f.clone() },
        RbRef::Struct(RbObject::new(&sym("A"))),
        RbRef::UserClass(RbClass { name: sym("A"), data: RbAny::Nil }),
        RbRef::UserData(RbUserData { name: sym("A"), data: vec![] }),
        RbRef::UserMarshal(RbClass { name: sym("A"), data: RbAny::Nil }),
    ];
    let mut handles = Vec::new();
    for n in nodes.iter().rev() {
        handles.push(cx.store(n.clone()).unwrap());
    }
    handles.reverse();
    for i in 0..handles.len() {
        for j in 0..handles.len() {
            assert_eq!(cmp(&cx, &handles[i], &handles[j]), i.cmp(&j), "{} {}", i, j);
        }
    }
}

#[test]
fn deep_order_of_strings_and_arrays() {
    let mut cx = RbContext::new();
    let a = cx.store(RbRef::Str("abc".into())).unwrap();
    let a2 = cx.store(RbRef::Str("abc".into())).unwrap();
    let b = cx.store(RbRef::Str("abd".into())).unwrap();
    assert_eq!(cmp(&cx, &a, &a2), Ordering::Equal);
    assert_eq!(cmp(&cx, &a, &b), Ordering::Less);
    assert_eq!(cmp(&cx, &b, &a), Ordering::Greater);
    let short = cx.store(RbRef::Array(vec![b.clone()])).unwrap();
    let long = cx.store(RbRef::Array(vec![a.clone(), a.clone()])).unwrap();
    let long2 = cx.store(RbRef::Array(vec![a2.clone(), b.clone()])).unwrap();
    assert_eq!(cmp(&cx, &short, &long), Ordering::Less);
    assert_eq!(cmp(&cx, &long, &long2), Ordering::Less);
    assert_eq!(cmp(&cx, &long2, &long), Ordering::Greater);
    assert_eq!(cmp(&cx, &long, &long), Ordering::Equal);
}

#[test]
fn deep_order_of_big_integers_is_numeric() {
    let mut cx = RbContext::new();
    let texts = [
        "-340282366920938463463374607431768211456",
        "-4294967296",
        "-1",
        "0",
        "1",
        "255",
        "256",
        "65536",
        "18446744073709551616",
    ];
    let mut handles = Vec::new();
    for t in texts {
        handles.push(big(&mut cx, t));
    }
    for i in 0..handles.len() {
        for j in 0..handles.len() {
            assert_eq!(cmp(&cx, &handles[i], &handles[j]), i.cmp(&j), "{} {}", texts[i], texts[j]);
        }
    }
}

#[test]
fn deep_order_of_floats_is_numeric() {
    let mut cx = RbContext::new();
    let ladder = [
        "-inf", "-1e400", "-10.0", "-9.5", "-1", "-1e-3", "-1e-400", "0", "1e-400", "0.001",
        "0.5", "1", "1.5", "9.0", "10.0", "1e2", "1e20", "1e400", "inf",
    ];
    let mut handles = Vec::new();
    for t in ladder {
        handles.push(float(&mut cx, t));
    }
    for i in 0..handles.len() {
        for j in 0..handles.len() {
            assert_eq!(cmp(&cx, &handles[i], &handles[j]), i.cmp(&j), "{} {}", ladder[i], ladder[j]);
        }
    }
}

#[test]
fn deep_order_of_floats_goes_by_the_number_not_the_spelling() {
    let mut cx = RbContext::new();
    let same = [
        ("1", "1.0"),
        ("0", "-0"),
        ("0", "0e99999999999999999999999999999999999999999999"),
        ("1e20", "100000000000000000000"),
        ("1.5e3", "1500"),
        (".5", "0.50"),
        ("+7", "007."),
        ("-2.50E+1", "-25"),
        ("inf", "+Infinity"),
        ("-inf", "-INFINITY"),
        ("1e-5", "0.00001"),
        ("12e99999999999999999999999999999999999999", "1.2e100000000000000000000000000000000000000"),
        ("5e-100000000000000000000000000000000000000", "50e-100000000000000000000000000000000000001"),
    ];
    for (x, y) in same {
        let a = float(&mut cx, x);
        let b = float(&mut cx, y);
        assert_eq!(cmp(&cx, &a, &b), Ordering::Equal, "{} {}", x, y);
        assert_eq!(cmp(&cx, &b, &a), Ordering::Equal, "{} {}", y, x);
        assert!(a.deep_eq_within(&cx, &b));
    }
    let less = [
        ("9.0", "10.0"),
        ("1e99999999999999999999999999999999999999", "1e100000000000000000000000000000000000000"),
        ("1e-100000000000000000000000000000000000000", "1e-99999999999999999999999999999999999999"),
        ("0.1", "0.1000000000000000000001"),
        ("-0.1000000000000000000001", "-0.1"),
        ("99e5", "1e7"),
    ];
    for (x, y) in less {
        let a = float(&mut cx, x);
        let b = float(&mut cx, y);
        assert_eq!(cmp(&cx, &a, &b), Ordering::Less, "{} {}", x, y);
        assert_eq!(cmp(&cx, &b, &a), Ordering::Greater, "{} {}", y, x);
    }
}

#[test]
fn deep_order_of_floats_agrees_with_machine_floats() {
    let values = [
        -1e300, -123456.75, -2.0, -1.5, -0.25, 0.0, 0.125, 0.5, 1.0, 3.0, 1e10, 2.5e15, 1e300,
    ];
    let mut cx = RbContext::new();
    let mut handles = Vec::new();
    for v in values {
        handles.push(float(&mut cx, &v.to_string()));
    }
    for i in 0..values.len() {
        for j in 0..values.len() {
            assert_eq!(
                Some(cmp(&cx, &handles[i], &handles[j])),
                values[i].partial_cmp(&values[j]),
                "{} {}",
                values[i],
                values[j]
            );
        }
    }
}

#[test]
fn deep_order_of_floats_that_are_no_number_goes_by_handle_in_one_graph() {
    let mut cx = RbContext::new();
    let n1 = float(&mut cx, "nan");
    let n2 = float(&mut cx, "nan");
    let one = float(&mut cx, "1");
    assert_eq!(n1.deep_cmp_within(&cx, &n1), Ordering::Equal);
    assert_eq!(n1.deep_cmp_within(&cx, &n2), Ordering::Less);
    assert_eq!(n2.deep_cmp_within(&cx, &n1), Ordering::Greater);
    assert_eq!(n2.deep_cmp_within(&cx, &one), Ordering::Less);
    assert_eq!(one.deep_cmp_within(&cx, &n1), Ordering::Greater);
    assert!(!n1.deep_eq_within(&cx, &n2));
    assert!(n1.deep_eq_within(&cx, &n1));
    let arr1 = cx.store(RbRef::Array(vec![n1.clone()])).unwrap();
    let arr2 = cx.store(RbRef::Array(vec![n2.clone()])).unwrap();
    assert_eq!(arr1.deep_cmp_within(&cx, &arr2), Ordering::Less);
    assert_eq!(arr1.deep_cmp_within(&cx, &arr1), Ordering::Equal);
    let mut c = RbCompare::new();
    assert_eq!(c.cmp_within(&cx, &n2, &n1), Ordering::Greater);
}

#[test]
fn deep_order_across_graphs_does_not_go_by_places() {
    let mut left = RbContext::new();
    let nan = float(&mut left, "nan");
    let mut right = RbContext::new();
    let one = float(&mut right, "1.0");
    assert_eq!(nan.as_rc().unwrap().index(), one.as_rc().unwrap().index());
    assert!(!nan.deep_eq(&left, &one, &right));
    assert!(!one.deep_eq(&right, &nan, &left));
    assert_eq!(nan.deep_cmp(&left, &one, &right), Ordering::Greater);
    assert_eq!(one.deep_cmp(&right, &nan, &left), Ordering::Less);
    let mut third = RbContext::new();
    let shout = float(&mut third, "NaN");
    assert_ne!(nan.deep_cmp(&left, &shout, &third), Ordering::Equal);
    assert_eq!(
        nan.deep_cmp(&left, &shout, &third),
        shout.deep_cmp(&third, &nan, &left).reverse()
    );
    let la = left.store(RbRef::Array(vec![nan.clone()])).unwrap();
    let ra = right.store(RbRef::Array(vec![one.clone()])).unwrap();
    assert!(!la.deep_eq(&left, &ra, &right));
}

#[test]
fn deep_order_of_hashes_and_objects() {
    let mut cx = RbContext::new();
    let h1 = cx
        .store(RbRef::Hash(RbHash::from_pairs(vec![(RbAny::Int(1), RbAny::Int(2))])))
        .unwrap();
    let h2 = cx
        .store(RbRef::Hash(RbHash::from_pairs(vec![(RbAny::Int(1), RbAny::Int(3))])))
        .unwrap();
    let h3 = cx
        .store(RbRef::Hash(RbHash::from_pairs(vec![
            (RbAny::Int(1), RbAny::Int(2)),
            (RbAny::Int(2), RbAny::Int(2)),
        ])))
        .unwrap();
    let mut with_default = RbHash::from_pairs(vec![(RbAny::Int(1), RbAny::Int(2))]);
    with_default.set_default(Some(RbAny::Nil));
    let h4 = cx.store(RbRef::Hash(with_default)).unwrap();
    assert_eq!(cmp(&cx, &h1, &h2), Ordering::Less);
    assert_eq!(cmp(&cx, &h1, &h3), Ordering::Less);
    assert_eq!(cmp(&cx, &h3, &h2), Ordering::Greater);
    assert_eq!(cmp(&cx, &h1, &h4), Ordering::Less);
    assert_eq!(cmp(&cx, &h4, &h4), Ordering::Equal);
    let o1 = cx.store(RbRef::new_object(sym("A"), &[(sym("x"), RbAny::Int(1))])).unwrap();
    let o2 = cx.store(RbRef::new_object(sym("A"), &[(sym("y"), RbAny::Int(0))])).unwrap();
    let o3 = cx.store(RbRef::new_object(sym("B"), &[])).unwrap();
    let o4 = cx.store(RbRef::new_object(sym("A"), &[(sym("x"), RbAny::Int(1))])).unwrap();
    assert_eq!(cmp(&cx, &o1, &o2), Ordering::Less);
    assert_eq!(cmp(&cx, &o1, &o3), Ordering::Less);
    assert_eq!(cmp(&cx, &o1, &o4), Ordering::Equal);
    let s1 = cx
        .store(RbObject::new_from_slice(sym("A"), &[(sym("x"), RbAny::Int(1))]).into_struct())
        .unwrap();
    assert_eq!(cmp(&cx, &o1, &s1), Ordering::Less);
}

#[test]
fn deep_order_of_regexes_and_user_data() {
    let mut cx = RbContext::new();
    let r1 = cx.store(RbRef::new_regex("a".into(), 1)).unwrap();
    let r2 = cx.store(RbRef::new_regex("a".into(), 2)).unwrap();
    let r3 = cx.store(RbRef::new_regex("b".into(), 0)).unwrap();
    assert_eq!(cmp(&cx, &r1, &r2), Ordering::Less);
    assert_eq!(cmp(&cx, &r2, &r3), Ordering::Less);
    assert_eq!(cmp(&cx, &r1, &r1), Ordering::Equal);
    let mut m = RbFields::new();
    m.insert(sym("k"), RbAny::Int(1));
    let i1 = cx.store(RbRef::RegexI { content: vec![1], flags: 0, metadata: RbFields::new() }).unwrap();
    let i2 = cx.store(RbRef::RegexI { content: vec![1], flags: 0, metadata: m.clone() }).unwrap();
    assert_eq!(cmp(&cx, &i1, &i2), Ordering::Less);
    let s1 = cx.store(RbRef::StrI { content: vec![1], metadata: m.clone() }).unwrap();
    let s2 = cx.store(RbRef::StrI { content: vec![2], metadata: RbFields::new() }).unwrap();
    assert_eq!(cmp(&cx, &s1, &s2), Ordering::Less);
    let u1 = cx.store(RbRef::UserData(RbUserData { name: sym("A"), data: vec![1] })).unwrap();
    let u2 = cx.store(RbRef::UserData(RbUserData { name: sym("A"), data: vec![1, 0] })).unwrap();
    let u3 = cx.store(RbRef::UserData(RbUserData { name: sym("B"), data: vec![] })).unwrap();
    assert_eq!(cmp(&cx, &u1, &u2), Ordering::Less);
    assert_eq!(cmp(&cx, &u2, &u3), Ordering::Less);
}

#[test]
fn deep_order_ends_on_graphs_that_lead_back_to_themselves() {
    let mut cx = RbContext::new();
    let a = cx.store(RbRef::Array(vec![])).unwrap();
    cx.set(&a.as_rc().unwrap(), RbRef::Array(vec![a.clone(), RbAny::Int(1)])).unwrap();
    let b = cx.store(RbRef::Array(vec![])).unwrap();
    cx.set(&b.as_rc().unwrap(), RbRef::Array(vec![b.clone(), RbAny::Int(1)])).unwrap();
    let c = cx.store(RbRef::Array(vec![])).unwrap();
    cx.set(&c.as_rc().unwrap(), RbRef::Array(vec![c.clone(), RbAny::Int(2)])).unwrap();
    assert_eq!(cmp(&cx, &a, &a), Ordering::Equal);
    assert_eq!(cmp(&cx, &a, &b), Ordering::Equal);
    assert_eq!(cmp(&cx, &a, &c), Ordering::Less);
    assert_eq!(cmp(&cx, &c, &b), Ordering::Greater);
    assert!(a.deep_eq(&cx, &b, &cx));
}

#[test]
fn deep_order_across_two_graphs() {
    let mut left = RbContext::new();
    let filler = left.store(RbRef::Str("filler".into())).unwrap();
    let l = left.store(RbRef::Array(vec![RbAny::Int(1), filler.clone()])).unwrap();
    let mut right = RbContext::new();
    let r_inner = right.store(RbRef::Str("filler".into())).unwrap();
    let r = right.store(RbRef::Array(vec![RbAny::Int(1), r_inner])).unwrap();
    assert!(l.deep_eq(&left, &r, &right));
    assert!(r.deep_eq(&right, &l, &left));
    assert_eq!(filler.deep_cmp(&left, &r, &right), Ordering::Greater);
}

#[test]
fn compare_keeps_a_record_per_call() {
    let mut cx = RbContext::new();
    let a = cx.store(RbRef::Str("a".into())).unwrap();
    let b = cx.store(RbRef::Str("b".into())).unwrap();
    let mut c = RbCompare::new();
    assert_eq!(c.cmp(&cx, &a, &cx, &b), Ordering::Less);
    assert_eq!(c.cmp(&cx, &b, &cx, &a), Ordering::Greater);
    assert_eq!(c.cmp(&cx, &a, &cx, &a), Ordering::Equal);
    let p = RefPair::new(&a.as_rc().unwrap(), &b.as_rc().unwrap());
    assert_eq!(p, RefPair::new(&a.as_rc().unwrap(), &b.as_rc().unwrap()));
    assert_ne!(p, RefPair::new(&b.as_rc().unwrap(), &a.as_rc().unwrap()));
}

#[test]
fn handles_of_no_object_are_ordered_by_place() {
    let mut other = RbContext::new();
    let x = other.store(RbRef::Array(vec![])).unwrap();
    let y = other.store(RbRef::Array(vec![])).unwrap();
    let cx = RbContext::new();
    assert_eq!(x.deep_cmp(&cx, &y, &cx), Ordering::Less);
    assert_eq!(y.deep_cmp(&cx, &x, &cx), Ordering::Greater);
    assert_eq!(x.deep_cmp(&cx, &x, &cx), Ordering::Equal);
}
