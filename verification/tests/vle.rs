use database::vle::{decode_i64_vle, decode_vle, decode_vle_at, decode_vle_vec, encode_i64_vle, encode_vle};

#[test]
fn test_encode() {
    assert_eq!(encode_vle(0), vec![0]);
    assert_eq!(encode_vle(1), vec![1]);
    assert_eq!(encode_vle(0x7f), vec![0x7f]);
    assert_eq!(encode_vle(0xff), vec![0x81, 0x7f]);
    assert_eq!(encode_vle(0xffff_ffff), vec![0b1000_1111, 0xff, 0xff, 0xff, 0x7f]);
    assert_eq!(
        encode_vle(0xffff_ffff_ffff_ffff),
        vec![0b1000_0001, 0xff, 0xff, 0xff, 0xff, 0xff, 0xff, 0xff, 0xff, 0x7f]
    );
    assert_eq!(encode_vle(0x1234), vec![0xa4, 0x34]);
}

#[test]
fn test_decode() {
    assert_eq!(decode_vle_vec(&vec![0]).unwrap(), 0);
    assert_eq!(decode_vle_vec(&vec![1]).unwrap(), 1);
    assert_eq!(decode_vle_vec(&vec![0x7f]).unwrap(), 0x7f);
    assert_eq!(decode_vle_vec(&vec![0x81, 0x7f]).unwrap(), 0xff);
    assert_eq!(decode_vle_vec(&vec![0b1000_1111, 0xff, 0xff, 0xff, 0x7f]).unwrap(), 0xffff_ffff);
    assert_eq!(
        decode_vle_vec(&vec![0b1000_0001, 0xff, 0xff, 0xff, 0xff, 0xff, 0xff, 0xff, 0xff, 0x7f]).unwrap(),
        0xffff_ffff_ffff_ffff
    );
    assert_eq!(decode_vle_vec(&vec![0xa4, 0x34]).unwrap(), 0x1234);

    assert_eq!(decode_vle_vec(&vec![0xff]), None);
    assert_eq!(decode_vle_vec(&vec![0xff, 0xff]), None);
    assert_eq!(decode_vle_vec(&vec![0x7f, 0xff]).unwrap(), 0x7f);
    assert_eq!(decode_vle_vec(&vec![0x81, 0x7f, 0xff]).unwrap(), 0xff);
    assert_eq!(
        decode_vle_vec(&vec![
            0xff, 0xff, 0xff, 0xff, 0xff, 0xff, 0xff, 0xff, 0xff, 0xff, 0xff, 0xff, 0xff, 0xff, 0xff,
            0xff, 0
        ]),
        None
    );
}

#[test]
fn test_i64() {
    assert_eq!(decode_i64_vle(encode_i64_vle(i64::MIN).as_slice()).unwrap().0, i64::MIN);
    assert_eq!(decode_i64_vle(encode_i64_vle(i64::MAX).as_slice()).unwrap().0, i64::MAX);
    assert_eq!(decode_i64_vle(encode_i64_vle(0).as_slice()).unwrap().0, 0);
    assert_eq!(decode_i64_vle(encode_i64_vle(-1).as_slice()).unwrap().0, -1);
}

#[test]
fn decode_gives_the_number_of_bytes_read() {
    assert_eq!(decode_vle(&[0x81, 0x7f, 0x05]), Some((0xff, 2)));
    assert_eq!(decode_vle(&[0x05]), Some((5, 1)));
    assert_eq!(decode_vle(&[]), None);
}

#[test]
fn decode_at_an_offset() {
    let bytes = [0x01, 0xa4, 0x34, 0x07];
    assert_eq!(decode_vle_at(&bytes, 1), Some((0x1234, 2)));
    assert_eq!(decode_vle_at(&bytes, 3), Some((7, 1)));
    assert_eq!(decode_vle_at(&bytes, 4), None);
    assert_eq!(decode_vle_at(&bytes, 9), None);
}

#[test]
fn ten_continued_bytes_are_no_value() {
    assert_eq!(decode_vle_vec(&[0x80; 10]), None);
    assert_eq!(decode_vle_vec(&[0x80, 0x80, 0x00]), Some(0));
}

#[test]
fn roundtrip_on_sample_values() {
    for v in [0u64, 1, 127, 128, 300, 0x3fff, 0x4000, u64::MAX - 1, u64::MAX, 1 << 63] {
        let mut bytes = encode_vle(v);
        let n = bytes.len();
        bytes.extend_from_slice(&[0x55, 0x81]);
        assert_eq!(decode_vle(&bytes), Some((v, n)));
    }
    for v in [i64::MIN, -300, -1, 0, 1, 300, i64::MAX] {
        let bytes = encode_i64_vle(v);
        assert_eq!(decode_i64_vle(&bytes), Some((v, bytes.len())));
    }
}

#[test]
fn negative_values_take_ten_bytes() {
    assert_eq!(encode_i64_vle(-1).len(), 10);
    assert_eq!(encode_i64_vle(i64::MIN), vec![0x81, 0x80, 0x80, 0x80, 0x80, 0x80, 0x80, 0x80, 0x80, 0x00]);
}
