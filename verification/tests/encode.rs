use thurgood::{
    from_reader, to_writer, RbAny, RbBigInt, RbClass, RbContext, RbFields, RbFloat, RbHash,
    RbObject, RbRef, RbSymbol, RbUserData, RbWriter, ThurgoodError,
};

fn write(cx: &RbContext, v: &RbAny) -> Vec<u8> {
    let mut buf = Vec::new();
    let n = to_writer(&mut buf, cx, v).expect("Writing error");
    assert_eq!(n, buf.len());
    buf
}

fn sym(s: &str) -> RbSymbol {
    RbSymbol::from_str(s)
}

fn float(cx: &mut RbContext, v: f64) -> RbAny {
    let text = if v.is_infinite() {
        if v.is_sign_negative() { "-inf".to_owned() } else { "inf".to_owned() }
    } else if v.is_nan() {
        "nan".to_owned()
    } else {
        v.to_string()
    };
    cx.store(RbRef::Float(RbFloat::parse(text.as_bytes()).unwrap())).unwrap()
}

fn count(haystack: &[u8], needle: &[u8]) -> usize {
    haystack.windows(needle.len()).filter(|w| *w == needle).count()
}

#[test]
fn encode_scalars() {
    let cx = RbContext::new();
    assert_eq!(write(&cx, &RbAny::Nil), b"\x04\x080");
    assert_eq!(write(&cx, &RbAny::True), b"\x04\x08T");
    assert_eq!(write(&cx, &RbAny::False), b"\x04\x08F");
    assert_eq!(write(&cx, &RbAny::Int(0)), b"\x04\x08i\x00");
    assert_eq!(write(&cx, &RbAny::Int(-123)), b"\x04\x08i\x80");
    assert_eq!(write(&cx, &RbAny::Int(i32::MAX)), b"\x04\x08i\x04\xff\xff\xff\x7f");
    assert_eq!(write(&cx, &RbAny::symbol_from("abc")), b"\x04\x08:\x08abc");
    assert_eq!(write(&cx, &RbAny::Symbol(RbSymbol::new(vec![0xff]))), b"\x04\x08:\x06\xff");
}

#[test]
fn encode_appends_to_what_the_sink_holds() {
    let cx = RbContext::new();
    let mut buf = vec![1u8, 2, 3];
    assert_eq!(to_writer(&mut buf, &cx, &RbAny::Int(1)), Ok(4));
    assert_eq!(buf, b"\x01\x02\x03\x04\x08i\x06");
    let mut wr = RbWriter::new(vec![9]);
    assert_eq!(wr.write(&cx, &RbAny::True), Ok(3));
    assert_eq!(wr.write(&cx, &RbAny::symbol_from("a")), Ok(5));
    assert_eq!(wr.write(&cx, &RbAny::symbol_from("a")), Ok(5));
    assert_eq!(wr.into_inner(), b"\x09\x04\x08T\x04\x08:\x06a\x04\x08:\x06a");
}

#[test]
fn encode_refuses_a_handle_of_no_object() {
    let mut other = RbContext::new();
    let far = other.store(RbRef::Array(vec![])).unwrap();
    let cx = RbContext::new();
    let mut buf = vec![7u8];
    assert_eq!(to_writer(&mut buf, &cx, &far), Err(ThurgoodError::BadObjectRef(0)));
    assert_eq!(buf, vec![7u8]);
}

#[test]
fn encode_floats() {
    let mut cx = RbContext::new();
    let cases: Vec<(f64, &[u8])> = vec![
        (0.0, b"\x04\x08f\x060"),
        (-0.0, b"\x04\x08f\x07-0"),
        (f64::INFINITY, b"\x04\x08f\x08inf"),
        (f64::NEG_INFINITY, b"\x04\x08f\x09-inf"),
        (f64::NAN, b"\x04\x08f\x08nan"),
        (-1196073.75, b"\x04\x08f\x10-1196073.75"),
        (1.5, b"\x04\x08f\x081.5"),
    ];
    for (v, bytes) in cases {
        let f = float(&mut cx, v);
        assert_eq!(write(&cx, &f), bytes);
    }
}

#[test]
fn floats_round_trip() {
    let values = [
        0.0,
        -0.0,
        f64::INFINITY,
        f64::NEG_INFINITY,
        -1196073.75,
        0.1,
        1e300,
        5e-324,
        f64::MAX,
        f64::MIN_POSITIVE,
        123456789.125,
    ];
    for v in values {
        let mut cx = RbContext::new();
        let f = float(&mut cx, v);
        let bytes = write(&cx, &f);
        let (dcx, got) = from_reader(&bytes).unwrap();
        let text = got.as_rbref(&dcx).unwrap().as_float().unwrap().as_bytes().to_vec();
        let back: f64 = String::from_utf8(text).unwrap().parse().unwrap();
        assert_eq!(back.to_bits(), v.to_bits());
        assert!(got.deep_eq(&dcx, &f, &cx));
    }
    let mut cx = RbContext::new();
    let nan = float(&mut cx, f64::NAN);
    let (dcx, got) = from_reader(&write(&cx, &nan)).unwrap();
    assert!(got.as_rbref(&dcx).unwrap().as_float().unwrap().is_nan());
}

#[test]
fn encode_strings() {
    let mut cx = RbContext::new();
    let empty = cx.store(RbRef::Str(String::new())).unwrap();
    assert_eq!(write(&cx, &empty), b"\x04\x08I\"\x00\x06:\x06ET");
    let one = cx.store(RbRef::Str("a".into())).unwrap();
    assert_eq!(write(&cx, &one), b"\x04\x08I\"\x06a\x06:\x06ET");
    let euro = cx.store(RbRef::Str("\u{20ac}".into())).unwrap();
    assert_eq!(write(&cx, &euro), b"\x04\x08I\"\x08\xe2\x82\xac\x06:\x06ET");
    let raw = cx.store(RbRef::StrI { content: vec![0xc3, 0x28], metadata: RbFields::new() }).unwrap();
    assert_eq!(write(&cx, &raw), b"\x04\x08I\"\x07\xc3\x28\x00");
    let mut meta = RbFields::new();
    meta.insert(sym("encoding"), one.clone());
    let tagged = cx.store(RbRef::StrI { content: vec![0x41], metadata: meta }).unwrap();
    assert_eq!(
        write(&cx, &tagged),
        b"\x04\x08I\"\x06A\x06:\x0dencodingI\"\x06a\x06:\x06ET"
    );
    let two = cx.store(RbRef::Array(vec![one.clone(), euro.clone()])).unwrap();
    assert_eq!(
        write(&cx, &two),
        b"\x04\x08[\x07I\"\x06a\x06:\x06ETI\"\x08\xe2\x82\xac\x06;\x00T"
    );
}

#[test]
fn strings_round_trip() {
    for text in ["", "a", "héllo", "\u{20ac}\u{1f600}", "line\nbreak\0nul"] {
        let mut cx = RbContext::new();
        let s = cx.store(RbRef::Str(text.to_owned())).unwrap();
        let (dcx, got) = from_reader(&write(&cx, &s)).unwrap();
        assert_eq!(got.as_string(&dcx), Some(&text.to_owned()));
        assert!(got.deep_eq(&dcx, &s, &cx));
    }
}

#[test]
fn encode_regexes() {
    let mut cx = RbContext::new();
    let r = cx.store(RbRef::new_regex("a+".into(), 5)).unwrap();
    assert_eq!(write(&cx, &r), b"\x04\x08I/\x07a+\x05\x06:\x06ET");
    let wide = cx.store(RbRef::new_regex("a".into(), 0x1ff)).unwrap();
    assert_eq!(write(&cx, &wide), b"\x04\x08I/\x06a\xff\x06:\x06ET");
    let raw = cx
        .store(RbRef::RegexI { content: vec![0xfe], flags: 2, metadata: RbFields::new() })
        .unwrap();
    assert_eq!(write(&cx, &raw), b"\x04\x08I/\x06\xfe\x02\x00");
    let (dcx, got) = from_reader(&write(&cx, &raw)).unwrap();
    assert!(got.deep_eq(&dcx, &raw, &cx));
}

#[test]
fn encode_big_integers() {
    let mut cx = RbContext::new();
    let cases: Vec<(bool, Vec<u8>, &[u8])> = vec![
        (false, vec![0], b"\x04\x08l+\x06\x00\x00"),
        (false, vec![1], b"\x04\x08l+\x06\x01\x00"),
        (true, vec![1], b"\x04\x08l-\x06\x01\x00"),
        (false, vec![0, 0, 1], b"\x04\x08l+\x07\x00\x00\x01\x00"),
        (false, vec![0, 0, 0, 0x80], b"\x04\x08l+\x07\x00\x00\x00\x80"),
        (true, vec![1, 2, 3, 4, 5], b"\x04\x08l-\x08\x01\x02\x03\x04\x05\x00"),
    ];
    for (negative, magnitude, bytes) in cases {
        let b = cx.store(RbRef::BigInt(RbBigInt::from_bytes_le(negative, &magnitude))).unwrap();
        assert_eq!(write(&cx, &b), bytes);
        let (dcx, got) = from_reader(bytes).unwrap();
        assert!(got.deep_eq(&dcx, &b, &cx));
        match got.as_rbref(&dcx).unwrap() {
            RbRef::BigInt(x) => {
                assert_eq!(x.is_negative(), negative);
                assert_eq!(x.to_bytes_le(), magnitude.as_slice());
            },
            other => panic!("unexpected {:?}", other),
        }
    }
}

#[test]
fn encode_containers() {
    let mut cx = RbContext::new();
    let a = cx.store(RbRef::Array(vec![RbAny::Int(1), RbAny::Nil])).unwrap();
    assert_eq!(write(&cx, &a), b"\x04\x08[\x07i\x060");
    let mut h = RbHash::from_pairs(vec![(RbAny::Int(1), RbAny::Int(2))]);
    let plain = cx.store(RbRef::Hash(h.clone())).unwrap();
    assert_eq!(write(&cx, &plain), b"\x04\x08{\x06i\x06i\x07");
    h.set_default(Some(RbAny::Int(0)));
    let with_default = cx.store(RbRef::Hash(h)).unwrap();
    assert_eq!(write(&cx, &with_default), b"\x04\x08}\x06i\x06i\x07i\x00");
    let o = RbObject::new_from_slice(sym("P"), &[(sym("x"), RbAny::Int(1)), (sym("P"), RbAny::True)]);
    let obj = cx.store(o.clone().into_object()).unwrap();
    assert_eq!(write(&cx, &obj), b"\x04\x08o:\x06P\x07:\x06xi\x06;\x00T");
    let st = cx.store(o.into_struct()).unwrap();
    assert_eq!(write(&cx, &st), b"\x04\x08S:\x06P\x07:\x06xi\x06;\x00T");
}

#[test]
fn encode_names_envelopes_and_user_data() {
    let mut cx = RbContext::new();
    let c = cx.store(RbRef::ClassRef("String".into())).unwrap();
    assert_eq!(write(&cx, &c), b"\x04\x08c\x0bString");
    let m = cx.store(RbRef::ModuleRef("Kernel".into())).unwrap();
    assert_eq!(write(&cx, &m), b"\x04\x08m\x0bKernel");
    let cm = cx.store(RbRef::ClassModuleRef("A".into())).unwrap();
    assert_eq!(write(&cx, &cm), b"\x04\x08M\x06A");
    let d = cx.store(RbRef::Data(RbClass { name: sym("D"), data: RbAny::Int(1) })).unwrap();
    assert_eq!(write(&cx, &d), b"\x04\x08d:\x06Di\x06");
    let uc = cx.store(RbRef::UserClass(RbClass { name: sym("C"), data: c.clone() })).unwrap();
    assert_eq!(write(&cx, &uc), b"\x04\x08C:\x06Cc\x0bString");
    let um = cx.store(RbRef::UserMarshal(RbClass { name: sym("U"), data: RbAny::True })).unwrap();
    assert_eq!(write(&cx, &um), b"\x04\x08U:\x06UT");
    let ud = cx.store(RbRef::UserData(RbUserData { name: sym("X"), data: vec![0, 0xff] })).unwrap();
    assert_eq!(write(&cx, &ud), b"\x04\x08u:\x06X\x07\x00\xff");
    for v in [c, m, cm, d, uc, um, ud] {
        let (dcx, got) = from_reader(&write(&cx, &v)).unwrap();
        assert!(got.deep_eq(&dcx, &v, &cx));
    }
}

#[test]
fn encode_writes_each_object_in_full_once() {
    let mut cx = RbContext::new();
    let shared = cx.store(RbRef::Str("shared".into())).unwrap();
    let root = cx
        .store(RbRef::Array(vec![
            shared.clone(),
            shared.clone(),
            shared.clone(),
            shared.clone(),
            shared.clone(),
        ]))
        .unwrap();
    let bytes = write(&cx, &root);
    assert_eq!(count(&bytes, b"shared"), 1);
    assert_eq!(count(&bytes, b"@\x06"), 4);
    assert_eq!(bytes, b"\x04\x08[\x0aI\"\x0bshared\x06:\x06ET@\x06@\x06@\x06@\x06");
    let (dcx, got) = from_reader(&bytes).unwrap();
    let items = got.as_array(&dcx).unwrap();
    assert!(items.iter().all(|i| i == &items[0]));
}

#[test]
fn encode_writes_each_symbol_in_full_once() {
    let mut cx = RbContext::new();
    let k = RbAny::symbol_from("key");
    let root = cx.store(RbRef::Array(vec![k.clone(), k.clone(), RbAny::symbol_from("other"), k]))
        .unwrap();
    let bytes = write(&cx, &root);
    assert_eq!(bytes, b"\x04\x08[\x09:\x08key;\x00:\x0aother;\x00");
}

#[test]
fn encode_self_reference() {
    let mut cx = RbContext::new();
    let a = cx.store(RbRef::Array(vec![])).unwrap();
    cx.set(&a.as_rc().unwrap(), RbRef::Array(vec![a.clone()])).unwrap();
    let bytes = write(&cx, &a);
    assert_eq!(bytes, b"\x04\x08[\x06@\x00");
    let (dcx, got) = from_reader(&bytes).unwrap();
    let items = got.as_array(&dcx).unwrap();
    assert_eq!(items.len(), 1);
    assert_eq!(items[0], got);
    assert_eq!(items[0].as_rc().unwrap().index(), got.as_rc().unwrap().index());
}

#[test]
fn encode_cycle_through_several_objects() {
    let mut cx = RbContext::new();
    let a = cx.store(RbRef::Array(vec![])).unwrap();
    let h = cx
        .store(RbRef::Hash(RbHash::from_pairs(vec![(RbAny::symbol_from("up"), a.clone())])))
        .unwrap();
    let o = cx.store(RbRef::new_object(sym("N"), &[(sym("@h"), h.clone())])).unwrap();
    cx.set(&a.as_rc().unwrap(), RbRef::Array(vec![o.clone(), h.clone()])).unwrap();
    let bytes = write(&cx, &a);
    assert_eq!(bytes, b"\x04\x08[\x07o:\x06N\x06:\x07@h{\x06:\x07up@\x00@\x07");
    let (dcx, got) = from_reader(&bytes).unwrap();
    let items = got.as_array(&dcx).unwrap();
    let h2 = items[0].as_object(&dcx).unwrap().get(&sym("@h")).unwrap();
    assert_eq!(h2, &items[1]);
    assert_eq!(h2.as_hash(&dcx).unwrap().get(&RbAny::symbol_from("up")), Some(&got));
    assert_eq!(write(&dcx, &got), bytes);
}

#[test]
fn encode_extended_takes_no_place_in_the_object_table() {
    let mut cx = RbContext::new();
    let inner = cx.store(RbRef::Array(vec![])).unwrap();
    let ext = cx.store(RbRef::Extended { module: sym("M"), object: inner.clone() }).unwrap();
    let s = cx.store(RbRef::Str("s".into())).unwrap();
    let root = cx.store(RbRef::Array(vec![ext.clone(), s.clone(), s.clone(), ext.clone()])).unwrap();
    let bytes = write(&cx, &root);
    assert_eq!(bytes, b"\x04\x08[\x09e:\x06M[\x00I\"\x06s\x06:\x06ET@\x07e;\x00@\x06");
    let (dcx, got) = from_reader(&bytes).unwrap();
    assert!(got.deep_eq(&dcx, &root, &cx));
    let items = got.as_array(&dcx).unwrap();
    assert_eq!(items[1], items[2]);
    assert_ne!(items[0], items[3]);
    assert_eq!(write(&dcx, &got), bytes);
}

#[test]
fn encode_nested_graph_round_trips() {
    let mut cx = RbContext::new();
    let name = cx.store(RbRef::Str("Ada".into())).unwrap();
    let big = cx.store(RbRef::BigInt(RbBigInt::from_bytes_le(true, &[1, 2, 3, 4, 5, 6, 7, 8, 9])))
        .unwrap();
    let pi = float(&mut cx, 3.25);
    let list = cx.store(RbRef::Array(vec![name.clone(), big, pi, RbAny::Int(-70000)])).unwrap();
    let mut h = RbHash::from_pairs(vec![
        (name.clone(), list.clone()),
        (RbAny::Int(1), RbAny::symbol_from("one")),
        (RbAny::symbol_from("one"), RbAny::Nil),
    ]);
    h.set_default(Some(list.clone()));
    let hash = cx.store(RbRef::Hash(h)).unwrap();
    let obj = cx
        .store(RbRef::new_object(
            sym("Person"),
            &[(sym("@name"), name), (sym("@data"), hash.clone()), (sym("@ok"), RbAny::True)],
        ))
        .unwrap();
    let wrapped = cx.store(RbRef::UserMarshal(RbClass { name: sym("Wrap"), data: obj.clone() })).unwrap();
    let root = cx.store(RbRef::Array(vec![wrapped, obj, hash, list])).unwrap();
    let bytes = write(&cx, &root);
    let (dcx, got) = from_reader(&bytes).unwrap();
    assert!(got.deep_eq(&dcx, &root, &cx));
    assert!(root.deep_eq(&cx, &got, &dcx));
    assert_eq!(write(&dcx, &got), bytes);
    assert_eq!(dcx.len(), cx.len());
}
