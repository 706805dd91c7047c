use thurgood::float::{is_float_text, until_nul};
use thurgood::{RbFloat, ThurgoodError};

#[test]
fn float_grammar_accepts_what_the_standard_parser_accepts() {
    let samples = [
        "", "0", "1", "-1", "+1", "007", "3.14", "-3.14", "5.", ".5", "-.5", "+.5", ".", "-", "+",
        "-.", "e5", "E5", "1e5", "1E5", "1e+5", "1e-5", "1e", "1e+", "1e-", "1.e5", ".5e5", ".e5",
        "2.5E10", "2.5e-10", "1.5e3x", "1 ", " 1", "1_000", "0x10", "inf", "-inf", "+inf", "INF",
        "Inf", "infinity", "-Infinity", "+INFINITY", "infinit", "infinityy", "in", "nan", "NaN",
        "-nan", "+NAN", "nann", "na", "1.2.3", "1e5e5", "--1", "+-1", "1-", "1+1", "1e1.5",
        "\u{665}", "1\0", "1,5", "00.00", "123456789012345678901234567890.5e-400", "e", ".e", "1e5.",
    ];
    for s in samples {
        let want = s.parse::<f64>().is_ok();
        assert_eq!(is_float_text(s.as_bytes()), want, "text {:?}", s);
        match RbFloat::parse(s.as_bytes()) {
            Ok(f) => {
                assert!(want);
                assert_eq!(f.as_bytes(), s.as_bytes());
            },
            Err(e) => {
                assert!(!want);
                assert_eq!(e, ThurgoodError::ParseFloat);
            },
        }
    }
}

#[test]
fn float_grammar_on_generated_texts() {
    let alphabet: [&str; 8] = ["1", "0", ".", "e", "-", "+", "E", "n"];
    let mut texts: Vec<String> = vec![String::new()];
    for _ in 0..4 {
        let mut next = Vec::new();
        for t in texts.iter() {
            for a in alphabet.iter() {
                next.push(format!("{}{}", t, a));
            }
        }
        for t in next.iter() {
            let want = t.parse::<f64>().is_ok();
            assert_eq!(is_float_text(t.as_bytes()), want, "text {:?}", t);
        }
        texts = next;
    }
}

#[test]
fn float_text_of_every_kind_of_number_is_a_numeral() {
    let values = [
        0.0,
        -0.0,
        1.0,
        -1.5,
        f64::MAX,
        f64::MIN,
        f64::MIN_POSITIVE,
        5e-324,
        1e21,
        1e-7,
        f64::INFINITY,
        f64::NEG_INFINITY,
        f64::NAN,
    ];
    for v in values {
        let text = v.to_string();
        let f = RbFloat::parse(text.as_bytes()).expect("a numeral");
        assert_eq!(f.is_nan(), v.is_nan());
    }
}

#[test]
fn float_is_nan_only_for_nan() {
    assert!(RbFloat::parse(b"nan").unwrap().is_nan());
    assert!(RbFloat::parse(b"-NaN").unwrap().is_nan());
    assert!(!RbFloat::parse(b"inf").unwrap().is_nan());
    assert!(!RbFloat::parse(b"1.0").unwrap().is_nan());
    assert_eq!(RbFloat::one().as_bytes(), b"1.0");
}

#[test]
fn bytes_until_the_first_nul() {
    assert_eq!(until_nul(b"0.123\0NO"), b"0.123");
    assert_eq!(until_nul(b"1.5"), b"1.5");
    assert_eq!(until_nul(b"\0"), b"");
    assert_eq!(until_nul(b""), b"");
    assert_eq!(until_nul(b"a\0b\0c"), b"a");
}
