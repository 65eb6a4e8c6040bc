use database::column_encode::{batch_step, BatchStep, NUM_PER_CHUNK};
use database::column_encode::{set_chunk_count, start_column_file, AppendError};
use database::column_file::{parse_chunks, read_chunk_header, read_file, ReadError, ReadResult};
use database::column_stats::{count_ascii_chars, summarize_int64_column};
use database::format::{
    create_header, create_int64_chunk, create_str_chunk, parse_header, ColumnType, DeserializerError,
};

fn int_file(chunks: &[Vec<i64>]) -> Vec<u8> {
    let mut f = Vec::new();
    create_header(&mut f, ColumnType::Int64, chunks.len() as u64);
    for c in chunks {
        f.extend_from_slice(&create_int64_chunk(c));
    }
    f
}

fn str_file(chunks: &[Vec<String>]) -> Vec<u8> {
    let mut f = Vec::new();
    create_header(&mut f, ColumnType::Str, chunks.len() as u64);
    for c in chunks {
        f.extend_from_slice(&create_str_chunk(c).unwrap());
    }
    f
}

fn message(e: &ReadError) -> &str {
    match e {
        ReadError::DeserializerError(m, _) => m,
        ReadError::IoError(m, _) => m,
    }
}

#[test]
fn int64_file_roundtrip() {
    let chunks = vec![vec![1, 2, 3], vec![], vec![-7, i64::MAX, i64::MIN]];
    match read_file(&int_file(&chunks)).unwrap() {
        ReadResult::Int64(v) => assert_eq!(v, chunks),
        ReadResult::Str(_) => panic!("wrong type"),
    }
}

#[test]
fn str_file_roundtrip() {
    let chunks = vec![vec!["a".to_string(), "bc".to_string()], vec!["ąę".to_string()]];
    match read_file(&str_file(&chunks)).unwrap() {
        ReadResult::Str(v) => assert_eq!(v, chunks),
        ReadResult::Int64(_) => panic!("wrong type"),
    }
}

#[test]
fn read_file_errors() {
    let e = read_file(&[1, 2, 3]).unwrap_err();
    assert!(matches!(e, ReadError::IoError(_, _)));
    assert_eq!(message(&e), "failed to read header");

    let mut f = int_file(&[vec![1]]);
    f[0] = 0;
    let e = read_file(&f).unwrap_err();
    assert!(matches!(e, ReadError::DeserializerError(_, DeserializerError::InvalidMagic)));
    assert_eq!(message(&e), "failed to parse header");

    let f = int_file(&[vec![1, 2]]);
    let e = read_file(&f[..20]).unwrap_err();
    assert!(matches!(e, ReadError::IoError(_, _)));
    assert_eq!(message(&e), "failed to read chunk header");

    let e = read_file(&f[..f.len() - 1]).unwrap_err();
    assert_eq!(message(&e), "failed to read chunk");

    let mut bad = Vec::new();
    create_header(&mut bad, ColumnType::Int64, 1);
    bad.extend_from_slice(&[0, 0, 0, 0, 0, 0, 0, 1, 0, 0, 0, 0, 0, 0, 0, 1, 0x80]);
    let e = read_file(&bad).unwrap_err();
    assert!(matches!(e, ReadError::DeserializerError(_, DeserializerError::InvalidInt64)));
    assert_eq!(message(&e), "failed to parse first int");

    let mut bad = Vec::new();
    create_header(&mut bad, ColumnType::Int64, 1);
    bad.extend_from_slice(&[0, 0, 0, 0, 0, 0, 0, 1, 0, 0, 0, 0, 0, 0, 0, 2, 0x01]);
    let e = read_file(&bad).unwrap_err();
    assert_eq!(message(&e), "failed to parse int chunk");

    let mut bad = Vec::new();
    create_header(&mut bad, ColumnType::Str, 1);
    bad.extend_from_slice(&[0, 0, 0, 0, 0, 0, 0, 2, 0, 0, 0, 0, 0, 0, 0, 1, 7, 7]);
    let e = read_file(&bad).unwrap_err();
    assert!(matches!(e, ReadError::DeserializerError(_, DeserializerError::IOError(_))));
    assert_eq!(message(&e), "failed to parse string chunk");
}

#[test]
fn chunk_walk() {
    let f = int_file(&[vec![1], vec![2, 3]]);
    let mut it = parse_chunks(&f, 3);
    let (d1, h1) = it.next().unwrap();
    assert_eq!(h1.rows, 1);
    assert_eq!(d1.len() as u64, h1.bytes);
    let (_, h2) = it.next().unwrap();
    assert_eq!(h2.rows, 2);
    assert!(it.next().is_none());
    assert!(matches!(it.error, Some(DeserializerError::IOError(_))));
    assert_eq!(it.chunks_left, 1);

    let mut pos = 16usize;
    let (rows, data) = read_chunk_header(&f, &mut pos).unwrap();
    assert_eq!(rows, 1);
    assert_eq!(pos, 16 + 16 + data.len());
}

#[test]
fn start_and_count_chunks() {
    let (mut f, n) = start_column_file(&[], ColumnType::Int64).unwrap();
    assert_eq!(n, 0);
    assert_eq!(f.len(), 16);
    f.extend_from_slice(&create_int64_chunk(&[4, 5]));
    f.extend_from_slice(&create_int64_chunk(&[6]));
    set_chunk_count(&mut f, n + 2);
    let mut h = [0u8; 16];
    h.copy_from_slice(&f[..16]);
    assert_eq!(parse_header(&h).unwrap(), (ColumnType::Int64, 2));
    match read_file(&f).unwrap() {
        ReadResult::Int64(v) => assert_eq!(v, vec![vec![4, 5], vec![6]]),
        _ => panic!("wrong type"),
    }

    let (g, m) = start_column_file(&f, ColumnType::Int64).unwrap();
    assert_eq!(m, 2);
    assert_eq!(g, f);
}

#[test]
fn start_errors() {
    assert!(matches!(start_column_file(&[1, 2], ColumnType::Str), Err(AppendError::TooShort)));
    assert!(matches!(start_column_file(&[1, 2, 3, 4, 5], ColumnType::Str), Err(AppendError::HeaderUnreadable)));
    let f = int_file(&[]);
    assert!(matches!(start_column_file(&f, ColumnType::Str), Err(AppendError::DifferentType(ColumnType::Int64))));
    let mut g = f.clone();
    g[1] = 0;
    assert!(matches!(
        start_column_file(&g, ColumnType::Int64),
        Err(AppendError::InvalidHeader(DeserializerError::InvalidMagic))
    ));
}

#[test]
fn int64_chunk_any_range() {
    for values in [vec![i64::MIN, i64::MAX], vec![i64::MAX, -1], vec![-1, i64::MAX, 0, i64::MIN]] {
        match read_file(&int_file(&[values.clone()])).unwrap() {
            ReadResult::Int64(v) => assert_eq!(v, vec![values]),
            _ => panic!("wrong type"),
        }
    }
    // the offset of i64::MAX from i64::MIN is the largest u64
    let chunk = create_int64_chunk(&[i64::MIN, i64::MAX]);
    assert_eq!(&chunk[16 + 11..], &[0x81, 0xff, 0xff, 0xff, 0xff, 0xff, 0xff, 0xff, 0xff, 0x7f]);
}

#[test]
fn int64_summary() {
    assert_eq!(summarize_int64_column(&[vec![1, 2], vec![4]]), (7, 3, 2));
    assert_eq!(summarize_int64_column(&[vec![-7, 0]]), (-7, 2, -3));
    assert_eq!(summarize_int64_column(&[vec![i64::MAX, 5, -5]]), (i64::MAX - 5, 3, (i64::MAX - 5) / 3));
    assert_eq!(summarize_int64_column(&[vec![], vec![i64::MIN, -1]]), (i64::MIN, 2, i64::MIN / 2));
}

#[test]
fn ascii_counts() {
    let counts = count_ascii_chars(&[vec!["aab".to_string(), "ż!".to_string()], vec!["b".to_string()]]);
    assert_eq!(counts.len(), 128);
    assert_eq!(counts[b'a' as usize], 2);
    assert_eq!(counts[b'b' as usize], 2);
    assert_eq!(counts[b'!' as usize], 1);
    assert_eq!(counts.iter().sum::<u64>(), 5);
}

#[test]
fn appending_keeps_old_chunks() {
    let old = int_file(&[vec![1, 2]]);
    let (mut f, n) = start_column_file(&old, ColumnType::Int64).unwrap();
    assert_eq!(n, 1);
    f.extend_from_slice(&create_int64_chunk(&[3]));
    f.extend_from_slice(&create_int64_chunk(&[-4, 5]));
    set_chunk_count(&mut f, n + 2);
    assert_eq!(f, int_file(&[vec![1, 2], vec![3], vec![-4, 5]]));
    match read_file(&f).unwrap() {
        ReadResult::Int64(v) => assert_eq!(v, vec![vec![1, 2], vec![3], vec![-4, 5]]),
        _ => panic!("wrong type"),
    }

    let old = str_file(&[vec!["x".to_string()]]);
    let (mut f, n) = start_column_file(&old, ColumnType::Str).unwrap();
    f.extend_from_slice(&create_str_chunk(&["y".to_string(), "z".to_string()]).unwrap());
    set_chunk_count(&mut f, n + 1);
    match read_file(&f).unwrap() {
        ReadResult::Str(v) => assert_eq!(v, vec![vec!["x".to_string()], vec!["y".to_string(), "z".to_string()]]),
        _ => panic!("wrong type"),
    }
}

#[test]
fn int64_chunk_read_to_its_end() {
    let chunk = create_int64_chunk(&[7, -3, 12]);
    let data = &chunk[16..];
    let mut it = database::format::parse_int64_chunk(3, data).unwrap();
    let mut out = Vec::new();
    while let Some(v) = it.next() {
        out.push(v.unwrap());
    }
    assert_eq!(out, vec![7, -3, 12]);
    assert_eq!(it.pos, data.len());
}

#[test]
fn batches() {
    assert_eq!(batch_step(0), BatchStep::Stop);
    assert_eq!(batch_step(1), BatchStep::WriteAndStop);
    assert_eq!(batch_step(NUM_PER_CHUNK - 1), BatchStep::WriteAndStop);
    assert_eq!(batch_step(NUM_PER_CHUNK), BatchStep::WriteAndContinue);
    assert_eq!(NUM_PER_CHUNK, 8192);
}
