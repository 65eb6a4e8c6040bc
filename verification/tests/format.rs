use database::format::{
    create_header, create_int64_chunk, create_str_chunk, parse_chunk_header, parse_header,
    parse_int64_chunk, parse_str_chunk, ColumnType, DeserializerError, CHUNK_HEADER_SIZE, HEADER_SIZE,
    MAGIC,
};

fn to16(b: &[u8]) -> [u8; 16] {
    let mut a = [0u8; 16];
    a.copy_from_slice(&b[..16]);
    a
}

#[test]
fn header_layout_and_roundtrip() {
    let mut buf = Vec::new();
    create_header(&mut buf, ColumnType::Str, 0x0102);
    assert_eq!(buf.len(), HEADER_SIZE);
    assert_eq!(&buf[0..4], &MAGIC);
    assert_eq!(&buf[0..4], b"ISBD");
    assert_eq!(&buf[4..8], &[0, 0, 0, 1]);
    assert_eq!(&buf[8..16], &[0, 0, 0, 0, 0, 0, 1, 2]);
    let (t, n) = parse_header(&to16(&buf)).unwrap();
    assert_eq!(t, ColumnType::Str);
    assert_eq!(n, 0x0102);

    let mut buf = vec![9u8];
    create_header(&mut buf, ColumnType::Int64, u64::MAX);
    assert_eq!(buf[0], 9);
    assert_eq!(&buf[5..9], &[0, 0, 0, 0]);
    let (t, n) = parse_header(&to16(&buf[1..])).unwrap();
    assert_eq!(t, ColumnType::Int64);
    assert_eq!(n, u64::MAX);
}

#[test]
fn header_errors() {
    let mut buf = Vec::new();
    create_header(&mut buf, ColumnType::Int64, 3);
    let mut bad_magic = to16(&buf);
    bad_magic[2] = b'X';
    assert!(matches!(parse_header(&bad_magic), Err(DeserializerError::InvalidMagic)));
    let mut bad_type = to16(&buf);
    bad_type[7] = 2;
    assert!(matches!(parse_header(&bad_type), Err(DeserializerError::InvalidColumnType)));
}

#[test]
fn column_type_codes() {
    assert_eq!(u32::from(ColumnType::Int64), 0);
    assert_eq!(u32::from(ColumnType::Str), 1);
    assert_eq!(ColumnType::try_from(1u32).unwrap(), ColumnType::Str);
    assert!(ColumnType::try_from(7u32).is_err());
}

#[test]
fn chunk_header_fields() {
    let mut b = [0u8; 16];
    b[7] = 5;
    b[15] = 3;
    b[8] = 1;
    let h = parse_chunk_header(&b).unwrap();
    assert_eq!(h.bytes, 5);
    assert_eq!(h.rows, (1u64 << 56) + 3);
}

#[test]
fn int64_chunk_layout() {
    let chunk = create_int64_chunk(&[5, 3, 10]);
    // header: payload length, then rows
    let h = parse_chunk_header(&to16(&chunk)).unwrap();
    assert_eq!(h.rows, 3);
    assert_eq!(h.bytes as usize, chunk.len() - CHUNK_HEADER_SIZE);
    // payload: the minimum, then each value minus the minimum
    assert_eq!(&chunk[16..], &[3, 2, 0, 7]);
}

#[test]
fn int64_chunk_roundtrip() {
    let values = vec![i64::MIN, -1, 0, 1, 1000, i64::MIN + 5];
    let chunk = create_int64_chunk(&values);
    let h = parse_chunk_header(&to16(&chunk)).unwrap();
    let mut it = parse_int64_chunk(h.rows, &chunk[16..]).unwrap();
    let mut out = Vec::new();
    while let Some(v) = it.next() {
        out.push(v.unwrap());
    }
    assert_eq!(out, values);
    assert!(it.next().is_none());
}

#[test]
fn empty_int64_chunk() {
    let chunk = create_int64_chunk(&[]);
    assert_eq!(chunk, vec![0, 0, 0, 0, 0, 0, 0, 1, 0, 0, 0, 0, 0, 0, 0, 0, 0]);
    let mut it = parse_int64_chunk(0, &chunk[16..]).unwrap();
    assert!(it.next().is_none());
}

#[test]
fn int64_chunk_errors() {
    assert!(matches!(parse_int64_chunk(1, &[]), Err(DeserializerError::InvalidInt64)));
    assert!(matches!(parse_int64_chunk(1, &[0x80]), Err(DeserializerError::InvalidInt64)));
    let mut it = parse_int64_chunk(2, &[10, 1]).unwrap();
    assert_eq!(it.next().unwrap().unwrap(), 11);
    assert!(matches!(it.next(), Some(Err(DeserializerError::InvalidInt64))));
    assert!(it.next().is_none());
}

#[test]
fn str_chunk_roundtrip() {
    let values: Vec<String> = vec!["".into(), "abc".into(), "zażółć".into(), "x".repeat(1000)];
    let chunk = create_str_chunk(&values).unwrap();
    let h = parse_chunk_header(&to16(&chunk)).unwrap();
    assert_eq!(h.rows, 4);
    assert_eq!(h.bytes as usize, chunk.len() - CHUNK_HEADER_SIZE);
    // the payload is compressed: it is not the raw rows
    assert_ne!(&chunk[16..], b"\0\0\0\0\0\0\0\x03abc");
    let mut it = parse_str_chunk(h.rows, &chunk[16..]).unwrap();
    let mut out = Vec::new();
    while let Some(s) = it.next() {
        out.push(s.unwrap());
    }
    assert_eq!(out, values);
}

#[test]
fn str_chunk_decompresses_to_length_prefixed_rows() {
    let values: Vec<String> = vec!["ab".into(), "c".into()];
    let chunk = create_str_chunk(&values).unwrap();
    let it = parse_str_chunk(2, &chunk[16..]).unwrap();
    assert_eq!(it.decoded, vec![0, 0, 0, 2, b'a', b'b', 0, 0, 0, 1, b'c']);
    assert_eq!(zstd::decode_all(&chunk[16..]).unwrap(), it.decoded);
}

#[test]
fn str_chunk_errors() {
    let mut bad_frame = parse_str_chunk(1, &[1, 2, 3]).unwrap();
    assert!(bad_frame.failure.is_some());
    assert!(matches!(bad_frame.next(), Some(Err(DeserializerError::IOError(_)))));
    assert!(bad_frame.next().is_none());
    let no_rows = parse_str_chunk(0, &[1, 2, 3]).unwrap();
    assert_eq!(no_rows.remaining_items, 0);

    let frame = zstd::encode_all(&[0u8, 0, 0, 5, b'a'][..], 3).unwrap();
    let mut it = parse_str_chunk(1, &frame).unwrap();
    assert!(matches!(it.next(), Some(Err(DeserializerError::TooShort))));

    let frame = zstd::encode_all(&[0u8, 0, 0, 1, 0xff][..], 3).unwrap();
    let mut it = parse_str_chunk(1, &frame).unwrap();
    assert!(matches!(it.next(), Some(Err(DeserializerError::InvalidString(_)))));
    assert!(it.next().is_none());
}
