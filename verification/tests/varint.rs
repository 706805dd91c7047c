use thurgood::{varint_decode, varint_encode, RbReader, RbWriter, ThurgoodError};

fn enc(v: i32) -> Vec<u8> {
    let mut out = Vec::new();
    let n = varint_encode(v, &mut out);
    assert_eq!(n, out.len());
    out
}

fn dec(bytes: &[u8]) -> Result<(i32, usize), ThurgoodError> {
    varint_decode(bytes, 0)
}

#[test]
fn varint_small_values_take_one_byte() {
    assert_eq!(enc(0), vec![0x00]);
    assert_eq!(enc(1), vec![0x06]);
    assert_eq!(enc(122), vec![0x7f]);
    assert_eq!(enc(-1), vec![0xfa]);
    assert_eq!(enc(-123), vec![0x80]);
}

#[test]
fn varint_wide_values_take_the_fewest_bytes() {
    assert_eq!(enc(123), vec![0x01, 0x7b]);
    assert_eq!(enc(255), vec![0x01, 0xff]);
    assert_eq!(enc(0x100), vec![0x02, 0x00, 0x01]);
    assert_eq!(enc(0xffff), vec![0x02, 0xff, 0xff]);
    assert_eq!(enc(0x10000), vec![0x03, 0x00, 0x00, 0x01]);
    assert_eq!(enc(0x1000000), vec![0x04, 0x00, 0x00, 0x00, 0x01]);
    assert_eq!(enc(i32::MAX), vec![0x04, 0xff, 0xff, 0xff, 0x7f]);
    assert_eq!(enc(-124), vec![0xff, 0x84]);
    assert_eq!(enc(-0x100), vec![0xff, 0x00]);
    assert_eq!(enc(-0x101), vec![0xfe, 0xff, 0xfe]);
    assert_eq!(enc(-0x10000), vec![0xfe, 0x00, 0x00]);
    assert_eq!(enc(-0x10001), vec![0xfd, 0xff, 0xff, 0xfe]);
    assert_eq!(enc(-0x1000000), vec![0xfd, 0x00, 0x00, 0x00]);
    assert_eq!(enc(i32::MIN), vec![0xfc, 0x00, 0x00, 0x00, 0x80]);
}

#[test]
fn varint_edge_cases_round_trip() {
    let edges = [
        0,
        1,
        -1,
        122,
        -122,
        123,
        -123,
        124,
        -124,
        0x100,
        -0x100,
        0x10000,
        -0x10000,
        i32::MIN,
        i32::MAX,
    ];
    for v in edges {
        let bytes = enc(v);
        assert_eq!(dec(&bytes), Ok((v, bytes.len())), "value {}", v);
    }
}

#[test]
fn varint_round_trips_over_a_sweep() {
    let mut v: i64 = i32::MIN as i64;
    while v <= i32::MAX as i64 {
        let x = v as i32;
        let bytes = enc(x);
        assert_eq!(dec(&bytes), Ok((x, bytes.len())));
        v += 65_521;
    }
    for x in -70_000..70_000 {
        let bytes = enc(x);
        assert_eq!(dec(&bytes), Ok((x, bytes.len())));
    }
}

#[test]
fn varint_decode_stops_after_the_integer() {
    let mut bytes = enc(-0x101);
    bytes.extend_from_slice(&[0xaa, 0xbb]);
    assert_eq!(dec(&bytes), Ok((-0x101, 3)));
    assert_eq!(varint_decode(&[0x99, 0x02, 0x00, 0x01], 1), Ok((0x100, 4)));
}

#[test]
fn varint_decode_reads_forms_the_writer_never_makes() {
    assert_eq!(dec(&[0x01, 0x00]), Ok((0, 2)));
    assert_eq!(dec(&[0x04, 0x01, 0x00, 0x00, 0x00]), Ok((1, 5)));
    assert_eq!(dec(&[0x04, 0xff, 0xff, 0xff, 0xff]), Ok((-1, 5)));
    assert_eq!(dec(&[0xfc, 0x00, 0x00, 0x00, 0x00]), Ok((0, 5)));
    assert_eq!(dec(&[0xff, 0xff]), Ok((-1, 2)));
    assert_eq!(dec(&[0x05]), Ok((0, 1)));
    assert_eq!(dec(&[0xfb]), Ok((0, 1)));
}

#[test]
fn varint_decode_fails_on_short_input() {
    assert_eq!(dec(&[]), Err(ThurgoodError::IO));
    assert_eq!(dec(&[0x02, 0x00]), Err(ThurgoodError::IO));
    assert_eq!(dec(&[0xfc, 0x00, 0x00, 0x00]), Err(ThurgoodError::IO));
    assert_eq!(varint_decode(&[0x00], 1), Err(ThurgoodError::IO));
    assert_eq!(varint_decode(&[0x00], 7), Err(ThurgoodError::IO));
}

#[test]
fn reader_and_writer_use_the_same_integers() {
    let mut wr = RbWriter::new(Vec::new());
    assert_eq!(wr.write_int(300), 3);
    assert_eq!(wr.write_int(-5), 1);
    let bytes = wr.into_inner();
    assert_eq!(bytes, vec![0x02, 0x2c, 0x01, 0xf6]);
    let mut rd = RbReader::new(bytes);
    assert_eq!(rd.read_int(), Ok(300));
    assert_eq!(rd.read_int(), Ok(-5));
    assert_eq!(rd.read_int(), Err(ThurgoodError::IO));
}
