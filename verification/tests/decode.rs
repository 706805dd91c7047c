use thurgood::{
    bytes_to_string, from_reader, from_reader_counted, to_writer, RbAny, RbContext, RbHash, RbReader, RbRef, RbSymbol,
    RbType, ThurgoodError,
};

fn parse(s: &[u8]) -> (RbContext, RbAny) {
    from_reader(s).expect("Parsing error")
}

fn parse_loose(s: &[u8]) -> Result<(RbContext, RbAny), ThurgoodError> {
    let mut rd = RbReader::new(s.to_vec());
    rd.allow_bin_strings = true;
    rd.read()
}

fn fail(s: &[u8]) -> ThurgoodError {
    match from_reader(s) {
        Ok(_) => panic!("decoding succeeded"),
        Err(e) => e,
    }
}

fn node<'a>(cx: &'a RbContext, v: &RbAny) -> &'a RbRef {
    v.as_rbref(cx).expect("not an object")
}

fn sym(s: &str) -> RbSymbol {
    RbSymbol::from_str(s)
}

fn float_value(cx: &RbContext, v: &RbAny) -> f64 {
    let text = node(cx, v).as_float().unwrap().as_bytes().to_vec();
    String::from_utf8(text).unwrap().parse::<f64>().unwrap()
}

#[test]
fn decode_scalars() {
    assert_eq!(parse(b"\x04\x080").1, RbAny::Nil);
    assert_eq!(parse(b"\x04\x08T").1, RbAny::True);
    assert_eq!(parse(b"\x04\x08F").1, RbAny::False);
    assert_eq!(parse(b"\x04\x08i\x00").1, RbAny::Int(0));
    assert_eq!(parse(b"\x04\x08i\x7f").1, RbAny::Int(122));
    assert_eq!(parse(b"\x04\x08i\x02\x00\x01").1, RbAny::Int(256));
    assert_eq!(parse(b"\x04\x08i\xfc\x00\x00\x00\x80").1, RbAny::Int(i32::MIN));
    assert_eq!(parse(b"\x04\x08:\x08abc").1, RbAny::symbol_from("abc"));
    assert_eq!(parse(b"\x04\x08:\x00").1, RbAny::symbol_from(""));
    assert_eq!(parse(b"\x04\x080").0.len(), 0);
}

#[test]
fn decode_tolerates_trailing_bytes() {
    assert_eq!(parse(b"\x04\x08i\x06garbage").1, RbAny::Int(1));
    let (cx, v) = parse(b"\x04\x08[\x00\xff\xff");
    assert_eq!(v.as_array(&cx).map(|a| a.len()), Some(0));
}

#[test]
fn decode_tells_where_it_stopped() {
    let (cx, v, n) = from_reader_counted(b"\x04\x08i\x06\xff\xff").unwrap();
    assert_eq!(v, RbAny::Int(1));
    assert_eq!(n, 4);
    assert_eq!(cx.len(), 0);
    let (_, v, n) = from_reader_counted(b"\x04\x08[\x07i\x06I\"\x06a\x06:\x06ETrest").unwrap();
    assert_eq!(n, 15);
    assert!(v.as_rc().is_some());
    let (_, _, n) = RbReader::new(b"\x04\x080".to_vec()).read_counted().unwrap();
    assert_eq!(n, 3);
    assert_eq!(from_reader_counted(b"\x04\x08").err(), Some(ThurgoodError::IO));
    assert_eq!(from_reader_counted(b"\x04\x07i\x00").err(), Some(ThurgoodError::Version(4, 7)));
}

#[test]
fn decode_with_a_lax_reader() {
    let inp = vec![0x04u8, 0x08, b'"', 0x08, 0xc3, 0x28, 0x34];
    let (cx, v) = RbReader::new_loose(inp.clone()).read().unwrap();
    assert!(matches!(node(&cx, &v), RbRef::StrI { .. }));
    let mut rd = RbReader::new(inp.clone());
    rd.set_allow_bin_strings(true);
    let (cx, v, n) = rd.read_counted().unwrap();
    assert_eq!(n, 7);
    match node(&cx, &v) {
        RbRef::StrI { content, metadata } => {
            assert_eq!(content.as_slice(), &[0xc3, 0x28, 0x34]);
            assert_eq!(metadata.len(), 0);
        },
        other => panic!("unexpected {:?}", other),
    }
    let mut strict = RbReader::new_loose(inp);
    strict.set_allow_bin_strings(false);
    assert_eq!(strict.read().err(), Some(ThurgoodError::Utf8));
}

#[test]
fn decode_error_io_on_short_input() {
    assert_eq!(fail(b""), ThurgoodError::IO);
    assert_eq!(fail(b"\x04"), ThurgoodError::IO);
    assert_eq!(fail(b"\x04\x08"), ThurgoodError::IO);
    assert_eq!(fail(b"\x04\x08i"), ThurgoodError::IO);
    assert_eq!(fail(b"\x04\x08i\x02\x00"), ThurgoodError::IO);
    assert_eq!(fail(b"\x04\x08:\x08ab"), ThurgoodError::IO);
    assert_eq!(fail(b"\x04\x08[\x07i\x06"), ThurgoodError::IO);
    assert_eq!(fail(b"\x04\x08\"\xfa"), ThurgoodError::IO);
    assert_eq!(fail(b"\x04\x08l+\x06\x01"), ThurgoodError::IO);
    assert_eq!(fail(b"\x04\x08l-\xfa"), ThurgoodError::IO);
    assert_eq!(fail(b"\x04\x08{\xfa"), ThurgoodError::IO);
    assert_eq!(fail(b"\x04\x08I"), ThurgoodError::IO);
    assert_eq!(fail(b"\x04\x08/\x06a"), ThurgoodError::IO);
}

#[test]
fn decode_error_version() {
    assert_eq!(fail(b"\x04\x09i\x00"), ThurgoodError::Version(4, 9));
    assert_eq!(fail(b"\x03\x08i\x00"), ThurgoodError::Version(3, 8));
    assert_eq!(fail(b"ab"), ThurgoodError::Version(0x61, 0x62));
}

#[test]
fn decode_error_bad_symbol_ref() {
    assert_eq!(fail(b"\x04\x08;\x00"), ThurgoodError::BadSymbolRef(0));
    assert_eq!(fail(b"\x04\x08[\x07:\x06a;\x06"), ThurgoodError::BadSymbolRef(1));
    assert_eq!(fail(b"\x04\x08;\xfa"), ThurgoodError::BadSymbolRef(usize::MAX));
}

#[test]
fn decode_error_bad_object_ref() {
    assert_eq!(fail(b"\x04\x08@\x00"), ThurgoodError::BadObjectRef(0));
    assert_eq!(fail(b"\x04\x08[\x06@\x06"), ThurgoodError::BadObjectRef(1));
}

#[test]
fn decode_error_bad_instance_type() {
    assert_eq!(fail(b"\x04\x08I[\x00"), ThurgoodError::BadInstanceType(b'['));
    assert_eq!(fail(b"\x04\x08Ii\x00"), ThurgoodError::BadInstanceType(b'i'));
}

#[test]
fn decode_error_unexpected_type() {
    assert_eq!(
        fail(b"\x04\x08oi\x06\x00"),
        ThurgoodError::UnexpectedType { expected: RbType::Symbol, found: RbType::Int }
    );
    assert_eq!(
        fail(b"\x04\x08o:\x06A\x06T0"),
        ThurgoodError::UnexpectedType { expected: RbType::Symbol, found: RbType::Bool }
    );
    assert_eq!(
        fail(b"\x04\x08e[\x00[\x00"),
        ThurgoodError::UnexpectedType { expected: RbType::Symbol, found: RbType::Array }
    );
    assert_eq!(
        fail(b"\x04\x08u0\x00"),
        ThurgoodError::UnexpectedType { expected: RbType::Symbol, found: RbType::Nil }
    );
}

#[test]
fn decode_error_bad_type_byte() {
    assert_eq!(fail(b"\x04\x08Z"), ThurgoodError::BadTypeByte(b'Z'));
    assert_eq!(fail(b"\x04\x08\x00"), ThurgoodError::BadTypeByte(0));
    assert_eq!(fail(b"\x04\x08[\x06?"), ThurgoodError::BadTypeByte(b'?'));
}

#[test]
fn decode_error_utf8() {
    assert_eq!(fail(b"\x04\x08\"\x07\xc3\x28"), ThurgoodError::Utf8);
    assert_eq!(fail(b"\x04\x08c\x06\xff"), ThurgoodError::Utf8);
    assert_eq!(fail(b"\x04\x08I\"\x07\xc3\x28\x06:\x06ET"), ThurgoodError::Utf8);
    assert_eq!(fail(b"\x04\x08/\x06\xff\x00"), ThurgoodError::Utf8);
    assert_eq!(fail(b"\x04\x08f\x06\xff"), ThurgoodError::Utf8);
    assert_eq!(bytes_to_string(&[0xff]), Err(ThurgoodError::Utf8));
    assert_eq!(bytes_to_string(b"ok"), Ok("ok".to_owned()));
}

#[test]
fn decode_error_parse_float() {
    assert_eq!(fail(b"\x04\x08f\x08abc"), ThurgoodError::ParseFloat);
    assert_eq!(fail(b"\x04\x08f\x00"), ThurgoodError::ParseFloat);
    assert_eq!(fail(b"\x04\x08f\x07 1"), ThurgoodError::ParseFloat);
    assert_eq!(fail(b"\x04\x08f\x06\x00"), ThurgoodError::ParseFloat);
}

#[test]
fn decode_floats() {
    let cases: Vec<(&[u8], f64)> = vec![
        (b"\x04\x08f\x060", 0.0),
        (b"\x04\x08f\x07-0", -0.0),
        (b"\x04\x08f\x08inf", f64::INFINITY),
        (b"\x04\x08f\x09-inf", f64::NEG_INFINITY),
        (b"\x04\x08f\x10-1196073.75", -1196073.75),
        (b"\x04\x08f\x0a1.5e3", 1500.0),
        (b"\x04\x08f\x0d0.123\x00NO", 0.123),
    ];
    for (bytes, want) in cases {
        let (cx, v) = parse(bytes);
        let got = float_value(&cx, &v);
        assert_eq!(got.to_bits(), want.to_bits());
    }
    let (cx, v) = parse(b"\x04\x08f\x08nan");
    assert!(float_value(&cx, &v).is_nan());
    assert!(node(&cx, &v).as_float().unwrap().is_nan());
    let (cx, v) = parse(b"\x04\x08f\x0d0.123\x00NO");
    assert_eq!(node(&cx, &v).as_float().unwrap().as_bytes(), b"0.123");
}

#[test]
fn decode_strings() {
    let (cx, v) = parse(b"\x04\x08I\"\x00\x06:\x06ET");
    assert_eq!(v.as_string(&cx), Some(&"".to_owned()));
    let (cx, v) = parse(b"\x04\x08I\"\x06a\x06:\x06ET");
    assert_eq!(v.as_string(&cx), Some(&"a".to_owned()));
    let (cx, v) = parse(b"\x04\x08I\"\x08\xe2\x82\xac\x06:\x06ET");
    assert_eq!(v.as_string(&cx), Some(&"\u{20ac}".to_owned()));
    let (cx, v) = parse(b"\x04\x08\"\x08abc");
    assert_eq!(v.as_string(&cx), Some(&"abc".to_owned()));
    let (cx, v) = parse_loose(b"\x04\x08\"\x08abc").unwrap();
    assert_eq!(v.as_string(&cx), Some(&"abc".to_owned()));
}

#[test]
fn decode_string_that_is_not_marked_utf8_keeps_its_bytes() {
    let (cx, v) = parse(b"\x04\x08I\"\x07ab\x06:\x0dencoding\"\x0eShift_JIS");
    match node(&cx, &v) {
        RbRef::StrI { content, metadata } => {
            assert_eq!(content.as_slice(), b"ab");
            assert_eq!(metadata.len(), 1);
            let (k, val) = metadata.get_index(0).unwrap();
            assert_eq!(k, &sym("encoding"));
            assert_eq!(val.as_string(&cx), Some(&"Shift_JIS".to_owned()));
        },
        other => panic!("unexpected {:?}", other),
    }
    let (cx, v) = parse(b"\x04\x08I\"\x07ab\x06:\x06EF");
    assert!(matches!(node(&cx, &v), RbRef::StrI { .. }));
    let (cx, v) = parse(b"\x04\x08I\"\x07ab\x00");
    assert!(matches!(node(&cx, &v), RbRef::StrI { .. }));
}

#[test]
fn decode_invalid_utf8_is_refused_unless_allowed() {
    let inp = [0x04u8, 0x08, b'"', 0x08, 0xc3, 0x28, 0x34];
    assert_eq!(fail(&inp), ThurgoodError::Utf8);
    let (cx, v) = parse_loose(&inp).unwrap();
    match node(&cx, &v) {
        RbRef::StrI { content, metadata } => {
            assert_eq!(content.as_slice(), &[0xc3, 0x28, 0x34]);
            assert_eq!(metadata.len(), 0);
        },
        other => panic!("unexpected {:?}", other),
    }
    assert_eq!(parse_loose(b"\x04\x08c\x06\xff").err(), Some(ThurgoodError::Utf8));
}

#[test]
fn decode_regexes() {
    let (cx, v) = parse(b"\x04\x08I/\x08a+b\x05\x06:\x06ET");
    match node(&cx, &v) {
        RbRef::Regex { content, flags } => {
            assert_eq!(content, "a+b");
            assert_eq!(*flags, 5);
        },
        other => panic!("unexpected {:?}", other),
    }
    let (cx, v) = parse(b"\x04\x08/\x07ab\x01");
    assert!(matches!(node(&cx, &v), RbRef::Regex { flags: 1, .. }));
    let (cx, v) = parse(b"\x04\x08I/\x07ab\xff\x00");
    match node(&cx, &v) {
        RbRef::RegexI { content, flags, metadata } => {
            assert_eq!(content.as_slice(), b"ab");
            assert_eq!(*flags, 255);
            assert_eq!(metadata.len(), 0);
        },
        other => panic!("unexpected {:?}", other),
    }
}

#[test]
fn decode_big_integers() {
    let cases: Vec<(&[u8], bool, Vec<u8>)> = vec![
        (b"\x04\x08l+\x06\x00\x00", false, vec![0]),
        (b"\x04\x08l-\x06\x00\x00", false, vec![0]),
        (b"\x04\x08l+\x06\x01\x00", false, vec![1]),
        (b"\x04\x08l-\x06\x01\x00", true, vec![1]),
        (b"\x04\x08l+\x07\x00\x00\x01\x00", false, vec![0, 0, 1]),
        (b"\x04\x08l+\x07\x00\x00\x00\x80", false, vec![0, 0, 0, 0x80]),
        (b"\x04\x08l*\x06\x02\x00", true, vec![2]),
        (b"\x04\x08l+\x00", false, vec![0]),
    ];
    for (bytes, negative, magnitude) in cases {
        let (cx, v) = parse(bytes);
        match node(&cx, &v) {
            RbRef::BigInt(b) => {
                assert_eq!(b.is_negative(), negative);
                assert_eq!(b.to_bytes_le(), magnitude.as_slice());
            },
            other => panic!("unexpected {:?}", other),
        }
    }
}

#[test]
fn decode_names_of_classes_and_modules() {
    let (cx, v) = parse(b"\x04\x08c\x0bString");
    assert!(matches!(node(&cx, &v), RbRef::ClassRef(n) if n == "String"));
    let (cx, v) = parse(b"\x04\x08m\x0bKernel");
    assert!(matches!(node(&cx, &v), RbRef::ModuleRef(n) if n == "Kernel"));
    let (cx, v) = parse(b"\x04\x08M\x06A");
    assert!(matches!(node(&cx, &v), RbRef::ClassModuleRef(n) if n == "A"));
}

#[test]
fn decode_hash_with_default() {
    let (cx, v) = parse(b"\x04\x08}\x06i\x06i\x07i\x00");
    let h = v.as_hash(&cx).unwrap();
    assert_eq!(h.len(), 1);
    assert_eq!(h.get(&RbAny::Int(1)), Some(&RbAny::Int(2)));
    assert_eq!(h.default_value(), Some(&RbAny::Int(0)));
    let (cx, v) = parse(b"\x04\x08{\x07i\x06T:\x06aF");
    let h = v.as_hash(&cx).unwrap();
    assert_eq!(h.get_index(0), Some((&RbAny::Int(1), &RbAny::True)));
    assert_eq!(h.get_index(1), Some((&RbAny::symbol_from("a"), &RbAny::False)));
    assert_eq!(h.default_value(), None);
}

#[test]
fn decode_hash_with_a_repeated_key_keeps_the_last_value() {
    let (cx, v) = parse(b"\x04\x08{\x08i\x06i\x0ai\x07i\x0bi\x06i\x0c");
    let h = v.as_hash(&cx).unwrap();
    assert_eq!(h.len(), 2);
    assert_eq!(h.get_index(0), Some((&RbAny::Int(1), &RbAny::Int(7))));
    assert_eq!(h.get_index(1), Some((&RbAny::Int(2), &RbAny::Int(6))));
}

#[test]
fn decode_struct_and_object() {
    let (cx, v) = parse(b"\x04\x08S:\x06P\x07:\x06xi\x06:\x06yi\x07");
    match node(&cx, &v) {
        RbRef::Struct(o) => {
            assert_eq!(o.name, sym("P"));
            assert_eq!(o.fields.get_index(0), Some((&sym("x"), &RbAny::Int(1))));
            assert_eq!(o.fields.get_index(1), Some((&sym("y"), &RbAny::Int(2))));
        },
        other => panic!("unexpected {:?}", other),
    }
    let (cx, v) = parse(b"\x04\x08o:\x06P\x06:\x07@xi\x06");
    assert_eq!(v.as_object(&cx).unwrap().get(&sym("@x")), Some(&RbAny::Int(1)));
}

#[test]
fn decode_instance_of_object_merges_the_fields() {
    let (cx, v) = parse(b"\x04\x08Io:\x06P\x06:\x07@xi\x06\x07:\x07@yi\x07;\x06i\x08");
    let o = v.as_object(&cx).unwrap();
    assert_eq!(o.name, sym("P"));
    assert_eq!(o.fields.len(), 2);
    assert_eq!(o.fields.get_index(0), Some((&sym("@x"), &RbAny::Int(3))));
    assert_eq!(o.fields.get_index(1), Some((&sym("@y"), &RbAny::Int(2))));
}

#[test]
fn decode_envelopes_and_user_data() {
    let (cx, v) = parse(b"\x04\x08d:\x06Di\x06");
    assert!(matches!(node(&cx, &v), RbRef::Data(c) if c.name == sym("D") && c.data == RbAny::Int(1)));
    let (cx, v) = parse(b"\x04\x08C:\x06C[\x00");
    match node(&cx, &v) {
        RbRef::UserClass(c) => {
            assert_eq!(c.name, sym("C"));
            assert_eq!(c.data.as_array(&cx).map(|a| a.len()), Some(0));
        },
        other => panic!("unexpected {:?}", other),
    }
    let (cx, v) = parse(b"\x04\x08U:\x06UT");
    assert!(matches!(node(&cx, &v), RbRef::UserMarshal(c) if c.data == RbAny::True));
    let (cx, v) = parse(b"\x04\x08u:\x06X\x07\x00\xff");
    assert!(
        matches!(node(&cx, &v), RbRef::UserData(u) if u.name == sym("X") && u.data == vec![0, 0xff])
    );
}

#[test]
fn decode_array_with_negative_count_is_empty() {
    let (cx, v) = parse(b"\x04\x08[\xfa");
    assert_eq!(v.as_array(&cx).map(|a| a.len()), Some(0));
}

#[test]
fn decode_numbers_objects_in_the_order_met() {
    let (cx, v) = parse(b"\x04\x08[\x08[\x00e:\x06M[\x00@\x07");
    let items = v.as_array(&cx).unwrap();
    assert_eq!(items.len(), 3);
    let wrapped = match node(&cx, &items[1]) {
        RbRef::Extended { module, object } => {
            assert_eq!(module, &sym("M"));
            object.clone()
        },
        other => panic!("unexpected {:?}", other),
    };
    assert_eq!(items[2], wrapped);
    assert_ne!(items[2], items[0]);
    assert_ne!(items[2], items[1]);
}

#[test]
fn decode_self_reference_keeps_the_handle() {
    let (cx, v) = parse(b"\x04\x08[\x06@\x00");
    let items = v.as_array(&cx).unwrap();
    assert_eq!(items.len(), 1);
    assert_eq!(items[0], v);
    let mut out = Vec::new();
    to_writer(&mut out, &cx, &v).unwrap();
    assert_eq!(out, b"\x04\x08[\x06@\x00");
}

#[test]
fn decode_reference_to_an_object_being_read() {
    let (cx, v) = parse(b"\x04\x08{\x06:\x09selfo:\x06N\x06:\x0a@back@\x00");
    let h = v.as_hash(&cx).unwrap();
    let o = h.get(&RbAny::symbol_from("self")).unwrap();
    assert_eq!(o.as_object(&cx).unwrap().get(&sym("@back")), Some(&v));
    assert_eq!(
        RbAny::find_child(
            &cx,
            &v,
            &[
                RbAny::symbol_from("self"),
                RbAny::symbol_from("@back"),
                RbAny::symbol_from("self"),
            ]
        ),
        Some(o)
    );
}

#[test]
fn decode_shared_objects_share_a_handle() {
    let inp = "\x04\x08[\no:\x08Foo\x07:\n@nameI\"\tJack\x06:\x06ET:\t@agei\x1E@\x06{\x06:\x08key@\x06o;\x00\x07;\x06I\"\tJane\x06;\x07T;\x08i\x1D@\t";
    let (cx, v) = parse(inp.as_bytes());
    let items = v.as_array(&cx).unwrap();
    assert_eq!(items.len(), 5);
    assert_eq!(items[0], items[1]);
    assert_eq!(items[3], items[4]);
    assert_ne!(items[0], items[3]);
    let in_hash = items[2].as_hash(&cx).unwrap().get(&RbAny::symbol_from("key")).unwrap();
    assert_eq!(in_hash, &items[0]);
    let jack = items[0].as_object(&cx).unwrap();
    assert_eq!(jack.get(&sym("@age")), Some(&RbAny::Int(25)));
    assert_eq!(
        jack.get(&sym("@name")).unwrap().as_string(&cx),
        Some(&"Jack".to_owned())
    );
    let jane = items[3].as_object(&cx).unwrap();
    assert_eq!(jane.get(&sym("@age")), Some(&RbAny::Int(24)));
}

#[test]
fn decode_then_encode_gives_the_same_bytes() {
    let streams: Vec<&[u8]> = vec![
        b"\x04\x08[\x07o:\x08Foo\x07:\n@nameI\"\tJack\x06:\x06ET:\t@agei\x1Eo;\x00\x07;\x06I\"\tJane\x06;\x07T;\x08i\x1D",
        b"\x04\x08{\x07:\x07aao:\x0EBar::BazA\x00:\x07bbo:\x0EBar::BazB\x00",
        b"\x04\x08e:\x08Bar[\x00",
        b"\x04\x08}\x06i\x06[\x06@\x00l-\x07\x01\x00\x00\x01",
        b"\x04\x08[\x0bd:\x06Di\x06C;\x00[\x00U;\x00Tu;\x00\x07\x00\xffc\x06AS;\x00\x00",
    ];
    for bytes in streams {
        let (cx, v) = parse(bytes);
        let mut out = Vec::new();
        assert_eq!(to_writer(&mut out, &cx, &v), Ok(bytes.len()));
        assert_eq!(out.as_slice(), bytes);
    }
}

#[test]
fn hash_of_pairs_decodes_like_it_was_built() {
    let mut cx = RbContext::new();
    let h = cx
        .store(RbRef::Hash(RbHash::from_pairs(vec![
            (RbAny::Int(1), RbAny::True),
            (RbAny::symbol_from("a"), RbAny::Nil),
        ])))
        .unwrap();
    let mut out = Vec::new();
    to_writer(&mut out, &cx, &h).unwrap();
    assert_eq!(out, b"\x04\x08{\x07i\x06T:\x06a0");
    let (dcx, got) = parse(&out);
    assert!(got.deep_eq(&dcx, &h, &cx));
}
