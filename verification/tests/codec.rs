use thurgood::consts::{T_INSTANCE, T_STRING};
use thurgood::{
    from_reader, to_writer, RbAny, RbContext, RbFields, RbFloat, RbHash, RbObject, RbReader, RbRef,
    RbSymbol,
};

/// Parses a stream into a graph and its root.
fn reader_parse(s: &[u8]) -> (RbContext, RbAny) {
    from_reader(s).expect("Parsing error")
}

fn reader_parse_loose(s: &[u8]) -> (RbContext, RbAny) {
    let mut rd = RbReader::new(s.to_vec());
    rd.allow_bin_strings = true;
    rd.read().expect("Parsing error")
}

/// Writes `value` to a `Vec<u8>` and returns it.
fn writer_write(cx: &RbContext, value: &RbAny) -> Vec<u8> {
    let mut buf = Vec::new();
    to_writer(&mut buf, cx, value).expect("Writing error");
    buf
}

fn assert_write(cx: &RbContext, value: &RbAny, expected: &[u8]) {
    assert_eq!(escape_str(writer_write(cx, value).as_slice()), escape_str(expected));
}

fn escape_str(src: &[u8]) -> String {
    let mut out = String::new();
    for b in src {
        let c = char::from(*b);
        if c.is_ascii_alphanumeric() || c.is_ascii_punctuation() {
            out.push(c);
        } else {
            out.push_str(&format!("\\x{:02X}", *b));
        }
    }
    out
}

fn string(cx: &mut RbContext, s: &str) -> RbAny {
    cx.store(RbRef::Str(s.to_owned())).unwrap()
}

fn array(cx: &mut RbContext, items: Vec<RbAny>) -> RbAny {
    cx.store(RbRef::Array(items)).unwrap()
}

fn float(cx: &mut RbContext, v: f64) -> RbAny {
    let text = if v.is_infinite() {
        if v.is_sign_negative() { "-inf".to_owned() } else { "inf".to_owned() }
    } else if v.is_nan() {
        "nan".to_owned()
    } else {
        v.to_string()
    };
    cx.store(RbRef::Float(RbFloat::parse(text.as_bytes()).unwrap())).unwrap()
}

fn sym(s: &str) -> RbSymbol {
    RbSymbol::from_str(s)
}

#[test]
fn array_string_hash() {
    let inp = "\x04\x08[\x07I\"\ttest\x06:\x06ET{\x06:\x06aI\"\x06b\x06;\x00T";
    let mut cx = RbContext::new();
    let test = string(&mut cx, "test");
    let b = string(&mut cx, "b");
    let hash = cx.store(RbRef::Hash(RbHash::from_pairs(vec![(sym("a").as_any(), b)]))).unwrap();
    let exp = array(&mut cx, vec![test, hash]);
    let (dcx, got) = reader_parse(inp.as_bytes());
    assert!(got.deep_eq(&dcx, &exp, &cx));
    assert_eq!(writer_write(&cx, &exp).as_slice(), inp.as_bytes());
}

#[test]
fn class_and_int() {
    let inp = "\x04\x08[\x07o:\x08Foo\x07:\n@nameI\"\tJack\x06:\x06ET:\t@agei\x1Eo;\x00\x07;\x06I\"\tJane\x06;\x07T;\x08i\x1D";
    let sym_name = sym("@name");
    let sym_age = sym("@age");
    let mut cx = RbContext::new();
    let jack = string(&mut cx, "Jack");
    let first = RbObject::new_from_slice(
        sym("Foo"),
        &vec![(sym("@name"), jack), (sym("@age"), RbAny::Int(25))],
    )
    .into_object();
    let first = cx.store(first).unwrap();
    let jane = string(&mut cx, "Jane");
    let second = cx
        .store(RbRef::new_object(
            sym("Foo"),
            &vec![(sym_name.clone(), jane), (sym_age.clone(), RbAny::Int(24))],
        ))
        .unwrap();
    let exp = array(&mut cx, vec![first, second]);
    let (dcx, got) = reader_parse(inp.as_bytes());
    assert!(got.deep_eq(&dcx, &exp, &cx));
    assert_write(&cx, &exp, inp.as_bytes());
}

#[test]
fn modules() {
    let inp = "\x04\x08{\x07:\x07aao:\x0EBar::BazA\x00:\x07bbo:\x0EBar::BazB\x00";
    let sym_aa = sym("aa");
    let sym_bar_baz_a = sym("Bar::BazA");
    let sym_bb = sym("bb");
    let sym_bar_baz_b = sym("Bar::BazB");
    let mut cx = RbContext::new();
    let a = cx.store(RbRef::new_object(sym_bar_baz_a.clone(), &vec![])).unwrap();
    let b = cx.store(RbRef::new_object(sym_bar_baz_b.clone(), &vec![])).unwrap();
    let exp = cx
        .store(RbRef::Hash(RbHash::from_pairs(vec![
            (sym_aa.clone().as_any(), a),
            (sym_bb.clone().as_any(), b),
        ])))
        .unwrap();
    let (dcx, got) = reader_parse(inp.as_bytes());
    assert!(got.deep_eq(&dcx, &exp, &cx));
    assert_write(&cx, &exp, inp.as_bytes());
}

#[test]
fn object_ref_count_1() {
    let inp = "\x04\x08[\no:\x08Foo\x07:\n@nameI\"\tJack\x06:\x06ET:\t@agei\x1E@\x06{\x06:\x08key@\x06o;\x00\x07;\x06I\"\tJane\x06;\x07T;\x08i\x1D@\t";
    let sym_name: RbSymbol = sym("@name");
    let sym_age: RbSymbol = sym("@age");
    let sym_key: RbSymbol = sym("key");
    let mut cx = RbContext::new();
    let jack = string(&mut cx, "Jack");
    let ob_1 = cx
        .store(RbRef::new_object(
            sym("Foo"),
            &vec![(sym_name.clone(), jack), (sym_age.clone(), RbAny::Int(25))],
        ))
        .unwrap();
    let hash = cx
        .store(RbRef::Hash(RbHash::from_pairs(vec![(sym_key.as_any(), ob_1.clone())])))
        .unwrap();
    let jane = string(&mut cx, "Jane");
    let ob_2 = cx
        .store(RbRef::new_object(
            sym("Foo"),
            &vec![(sym_name.clone(), jane), (sym_age.clone(), RbAny::Int(24))],
        ))
        .unwrap();
    let exp = array(&mut cx, vec![ob_1.clone(), ob_1.clone(), hash, ob_2.clone(), ob_2.clone()]);
    let (dcx, got) = reader_parse(inp.as_bytes());
    assert!(got.deep_eq(&dcx, &exp, &cx));
    assert_write(&cx, &exp, inp.as_bytes());
}

#[test]
fn object_ref_count_2() {
    let inp = "\x04\x08[\x07[\x06I\"\tTest\x06:\x06ET@\x06";
    let mut cx = RbContext::new();
    let test = string(&mut cx, "Test");
    let ob_1 = array(&mut cx, vec![test]);
    let exp = array(&mut cx, vec![ob_1.clone(), ob_1.clone()]);
    let (dcx, got) = reader_parse(inp.as_bytes());
    assert!(got.deep_eq(&dcx, &exp, &cx));
    assert_write(&cx, &exp, inp.as_bytes());
}

#[test]
fn read_extended() {
    let inp = "\x04\x08e:\x08Bar[\x00";
    let sym_bar = sym("Bar");
    let mut cx = RbContext::new();
    let empty = array(&mut cx, vec![]);
    let exp = cx.store(RbRef::Extended { module: sym_bar.clone(), object: empty }).unwrap();
    let (dcx, got) = reader_parse(inp.as_bytes());
    assert!(got.deep_eq(&dcx, &exp, &cx));
    assert_write(&cx, &exp, inp.as_bytes());
}

/// Floats can be stored as NUL-terminated C strings. This also tests
/// ordinary floats.
#[test]
fn float_types() {
    let inp = "\x04\x08[\x08f\x0D0.123\x00NOf\n1.234f\x10-1196073.75";
    let out = "\x04\x08[\x08f\n0.123f\n1.234f\x10-1196073.75";
    let mut cx = RbContext::new();
    let a = float(&mut cx, 0.123f64);
    let b = float(&mut cx, 1.234f64);
    let c = float(&mut cx, -1196073.75f64);
    let exp = array(&mut cx, vec![a, b, c]);
    let (dcx, got) = reader_parse(inp.as_bytes());
    assert!(got.deep_eq(&dcx, &exp, &cx));
    assert_write(&cx, &exp, out.as_bytes());
    assert_write(&dcx, &got, out.as_bytes());
}

#[test]
fn invalid_utf8_string_allowed() {
    let inp = vec![0x04u8, 0x08, T_STRING, 0x08, 0xc3, 0x28, 0x34];
    let out = vec![0x04u8, 0x08, T_INSTANCE, T_STRING, 0x08, 0xc3, 0x28, 0x34, 0x00];
    let mut cx = RbContext::new();
    let exp = cx
        .store(RbRef::StrI { content: vec![0xc3, 0x28, 0x34], metadata: RbFields::new() })
        .unwrap();
    let (dcx, got) = reader_parse_loose(&inp);
    assert!(got.deep_eq(&dcx, &exp, &cx));
    assert_write(&cx, &exp, &out);
}
