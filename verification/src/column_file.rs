//! Reading whole column files held in memory: walking the chunks and
//! decoding every row.
use vstd::prelude::*;
use crate::format::{
    ChunkHeader, ColumnType, DeserializerError, Int64ColumnChunkIterator, StringColumnChunkIterator,
    CHUNK_HEADER_SIZE, HEADER_SIZE, int64_rows, parse_chunk_header, parse_header,
    parse_int64_chunk, parse_str_chunk, spec_chunk_header, spec_parse_header, str_rows,
    zstd_decoded, header_bytes, int64_chunk_bytes, int64_payload,
    lemma_header_roundtrip, lemma_int64_chunk_roundtrip, str_chunk_bytes, str_payload,
    lemma_str_payload_roundtrip,
};
use crate::be_bytes::lemma_be_u64_roundtrip;
use crate::vle::vle_decode_i64;

verus! {

/// The error that reading past the end of a file gives.
#[verifier::external_body]
fn unexpected_eof() -> (e: std::io::Error) {
    std::io::Error::from(std::io::ErrorKind::UnexpectedEof)
}

/// Copies the bytes of `file` from `start` (inclusive) to `end` (exclusive).
pub fn copy_range(file: &[u8], start: usize, end: usize) -> (r: Vec<u8>)
    requires
        start <= end <= file@.len(),
    ensures
        r@ == file@.subrange(start as int, end as int),
{
    let mut out: Vec<u8> = Vec::new();
    let mut k = start;
    while k < end
        invariant
            start <= k <= end,
            end <= file@.len(),
            out@ == file@.subrange(start as int, k as int),
        decreases end - k,
    {
        out.push(file[k]);
        assert(file@.subrange(start as int, k + 1) =~= out@);
        k += 1;
    }
    out
}

/// Copies the sixteen bytes of `file` that start at `start`.
pub(crate) fn copy_16(file: &[u8], start: usize) -> (r: [u8; 16])
    requires
        start + 16 <= file@.len(),
    ensures
        r@ == file@.subrange(start as int, start + 16),
{
    let r = [
        file[start],
        file[start + 1],
        file[start + 2],
        file[start + 3],
        file[start + 4],
        file[start + 5],
        file[start + 6],
        file[start + 7],
        file[start + 8],
        file[start + 9],
        file[start + 10],
        file[start + 11],
        file[start + 12],
        file[start + 13],
        file[start + 14],
        file[start + 15],
    ];
    assert(r@ =~= file@.subrange(start as int, start + 16));
    r
}

/// The chunk that starts at index `pos` of `file`: its data and its header,
/// or `None` when the file ends first.
pub open spec fn chunk_at(file: Seq<u8>, pos: int) -> Option<(Seq<u8>, ChunkHeader)> {
    if pos < 0 || pos + 16 > file.len() {
        None
    } else {
        let h = spec_chunk_header(file.subrange(pos, pos + 16));
        if pos + 16 + h.bytes > file.len() {
            None
        } else {
            Some((file.subrange(pos + 16, pos + 16 + h.bytes), h))
        }
    }
}

/// Walks the chunks of a column file.
pub struct ChunkIterator<'a> {
    pub file: &'a [u8],
    pub next_chunk_pos: u64,
    pub chunks_left: u64,
    pub error: Option<DeserializerError>,
}

/// Starts walking the `chunks` chunks of `file`, right after the file header.
pub fn parse_chunks<'a>(file: &'a [u8], chunks: u64) -> (r: ChunkIterator<'a>)
    ensures
        r.file == file,
        r.next_chunk_pos == HEADER_SIZE,
        r.chunks_left == chunks,
        r.error is None,
{
    ChunkIterator { file, next_chunk_pos: HEADER_SIZE as u64, chunks_left: chunks, error: None }
}

/// The chunks that walking `count` chunks of `file` from index `pos` gives,
/// in order, up to the first one that cannot be read.
pub open spec fn chunk_walk(file: Seq<u8>, pos: int, count: nat) -> Seq<(Seq<u8>, ChunkHeader)>
    decreases count,
{
    if count == 0 {
        seq![]
    } else {
        match chunk_at(file, pos) {
            None => seq![],
            Some((data, h)) => seq![(data, h)] + chunk_walk(file, pos + 16 + h.bytes, (count - 1) as nat),
        }
    }
}

impl<'a> ChunkIterator<'a> {
    /// The chunks that the walk still gives, in order; none once a chunk
    /// could not be read.
    pub open spec fn chunks_ahead(&self) -> Seq<(Seq<u8>, ChunkHeader)> {
        if self.error is Some {
            seq![]
        } else {
            chunk_walk(self.file@, self.next_chunk_pos as int, self.chunks_left as nat)
        }
    }

    /// Reads the chunk at the current position.
    pub fn get_chunk(&mut self) -> (r: Result<(Vec<u8>, ChunkHeader), DeserializerError>)
        ensures
            *final(self) == *old(self),
            match chunk_at(old(self).file@, old(self).next_chunk_pos as int) {
                Some((data, h)) => r matches Ok((d, h2)) && d@ == data && h2 == h,
                None => r matches Err(e) && e is IOError,
            },
    {
        let len = self.file.len();
        let pos = self.next_chunk_pos;
        if pos > len as u64 || (len as u64) - pos < 16 {
            return Err(DeserializerError::IOError(unexpected_eof()));
        }
        let p = pos as usize;
        let header_buf = copy_16(self.file, p);
        let chunk_header = match parse_chunk_header(&header_buf) {
            Ok(h) => h,
            Err(e) => {
                return Err(e);
            },
        };
        if chunk_header.bytes > (len - p - 16) as u64 {
            return Err(DeserializerError::IOError(unexpected_eof()));
        }
        let end = p + 16 + chunk_header.bytes as usize;
        let chunk_data = copy_range(self.file, p + 16, end);
        Ok((chunk_data, chunk_header))
    }

    /// Reads the next chunk and moves past it; `None` when no chunks are left
    /// or a chunk could not be read (the error is kept in `error`).
    pub fn next(&mut self) -> (r: Option<(Vec<u8>, ChunkHeader)>)
        ensures
            old(self).chunks_ahead().len() == 0 ==> r is None,
            old(self).chunks_ahead().len() > 0 ==> (r matches Some((d, h)) && d@
                == old(self).chunks_ahead()[0].0 && h == old(self).chunks_ahead()[0].1
                && final(self).chunks_ahead() == old(self).chunks_ahead().drop_first()),
            final(self).file == old(self).file,
            !(old(self).error is None && old(self).chunks_left > 0) ==> r is None && *final(self)
                == *old(self),
            old(self).error is None && old(self).chunks_left > 0 ==> match chunk_at(
                old(self).file@,
                old(self).next_chunk_pos as int,
            ) {
                Some((data, h)) => {
                    &&& r matches Some((d, h2)) && d@ == data && h2 == h
                    &&& final(self).next_chunk_pos == old(self).next_chunk_pos + 16 + h.bytes
                    &&& final(self).chunks_left == old(self).chunks_left - 1
                    &&& final(self).error is None
                },
                None => {
                    &&& r is None
                    &&& final(self).error matches Some(e) && e is IOError
                    &&& final(self).chunks_left == old(self).chunks_left
                },
            },
    {
        if self.error.is_none() && self.chunks_left > 0 {
            match self.get_chunk() {
                Ok((chunk, header)) => {
                    assert(self.file@.len() == self.file.len());
                    self.next_chunk_pos = self.next_chunk_pos + 16 + header.bytes;
                    self.chunks_left = self.chunks_left - 1;
                    Some((chunk, header))
                },
                Err(e) => {
                    self.error = Some(e);
                    None
                },
            }
        } else {
            None
        }
    }
}


/// Why reading a column file failed.
#[derive(Debug)]
pub enum ReadError {
    DeserializerError(String, DeserializerError),
    IoError(String, std::io::Error),
}

/// The rows of a column file, chunk by chunk.
#[derive(Debug)]
pub enum ReadResult {
    Int64(Vec<Vec<i64>>),
    Str(Vec<Vec<String>>),
}

/// The kinds of failure when reading a column file.
pub enum FailureKind {
    /// The file ends early.
    Read,
    Magic,
    ColumnType,
    Int64,
    TooShort,
    Utf8,
    Decompress,
}

/// Whether `e` is a failure of kind `kind` with message `msg`.
pub open spec fn read_error_is(e: ReadError, msg: Seq<char>, kind: FailureKind) -> bool {
    match e {
        ReadError::IoError(m, _) => m@ == msg && kind is Read,
        ReadError::DeserializerError(m, d) => m@ == msg && match d {
            DeserializerError::InvalidMagic => kind is Magic,
            DeserializerError::InvalidColumnType => kind is ColumnType,
            DeserializerError::InvalidInt64 => kind is Int64,
            DeserializerError::TooShort => kind is TooShort,
            DeserializerError::InvalidString(_) => kind is Utf8,
            DeserializerError::IOError(_) => kind is Decompress,
        },
    }
}

/// The kind of failure of a deserializer error.
pub open spec fn failure_kind(e: DeserializerError) -> FailureKind {
    match e {
        DeserializerError::InvalidMagic => FailureKind::Magic,
        DeserializerError::InvalidColumnType => FailureKind::ColumnType,
        DeserializerError::InvalidInt64 => FailureKind::Int64,
        DeserializerError::TooShort => FailureKind::TooShort,
        DeserializerError::InvalidString(_) => FailureKind::Utf8,
        DeserializerError::IOError(_) => FailureKind::Decompress,
    }
}

/// The values of an int64 chunk's data of `rows` rows, or the message and
/// kind of the failure.
pub open spec fn int64_chunk_outcome(data: Seq<u8>, rows: u64) -> Result<
    Seq<i64>,
    (Seq<char>, FailureKind),
> {
    match vle_decode_i64(data) {
        None => Err(("failed to parse first int"@, FailureKind::Int64)),
        Some((leader, k)) => match int64_rows(data, k, rows as nat, leader) {
            Some(v) => Ok(v),
            None => Err(("failed to parse int chunk"@, FailureKind::Int64)),
        },
    }
}

/// The strings of a string chunk's data of `rows` rows, or the message and
/// kind of the failure.
pub open spec fn str_chunk_outcome(data: Seq<u8>, rows: u64) -> Result<
    Seq<Seq<char>>,
    (Seq<char>, FailureKind),
> {
    if rows == 0 {
        Ok(seq![])
    } else {
        match zstd_decoded(data) {
            None => Err(("failed to parse string chunk"@, FailureKind::Decompress)),
            Some(dec) => match str_rows(dec, 0, rows as nat) {
                Some(v) => Ok(v),
                None => Err(("failed to parse string chunk"@, str_rows_failure(dec, 0, rows as nat))),
            },
        }
    }
}

/// The kind of failure met first when reading `count` string rows from index
/// `pos` of the uncompressed data `dec`.
pub open spec fn str_rows_failure(dec: Seq<u8>, pos: nat, count: nat) -> FailureKind
    decreases count,
{
    if count == 0 {
        FailureKind::TooShort
    } else {
        match crate::format::str_row_at(dec, pos) {
            None => FailureKind::TooShort,
            Some((b, next)) => if !vstd::utf8::valid_utf8(b) {
                FailureKind::Utf8
            } else {
                str_rows_failure(dec, next, (count - 1) as nat)
            },
        }
    }
}

/// The chunks of `count` int64 chunks from index `pos` of `file`.
pub open spec fn int64_chunks(file: Seq<u8>, pos: int, count: nat) -> Result<
    Seq<Seq<i64>>,
    (Seq<char>, FailureKind),
>
    decreases count,
{
    if count == 0 {
        Ok(seq![])
    } else if pos + 16 > file.len() {
        Err(("failed to read chunk header"@, FailureKind::Read))
    } else {
        match chunk_at(file, pos) {
            None => Err(("failed to read chunk"@, FailureKind::Read)),
            Some((data, h)) => match int64_chunk_outcome(data, h.rows) {
                Err(f) => Err(f),
                Ok(v) => match int64_chunks(file, pos + 16 + h.bytes, (count - 1) as nat) {
                    Err(f) => Err(f),
                    Ok(rest) => Ok(seq![v] + rest),
                },
            },
        }
    }
}

/// The chunks of `count` string chunks from index `pos` of `file`.
pub open spec fn str_chunks(file: Seq<u8>, pos: int, count: nat) -> Result<
    Seq<Seq<Seq<char>>>,
    (Seq<char>, FailureKind),
>
    decreases count,
{
    if count == 0 {
        Ok(seq![])
    } else if pos + 16 > file.len() {
        Err(("failed to read chunk header"@, FailureKind::Read))
    } else {
        match chunk_at(file, pos) {
            None => Err(("failed to read chunk"@, FailureKind::Read)),
            Some((data, h)) => match str_chunk_outcome(data, h.rows) {
                Err(f) => Err(f),
                Ok(v) => match str_chunks(file, pos + 16 + h.bytes, (count - 1) as nat) {
                    Err(f) => Err(f),
                    Ok(rest) => Ok(seq![v] + rest),
                },
            },
        }
    }
}

/// The contents of a column file.
pub enum FileContents {
    Int64(Seq<Seq<i64>>),
    Str(Seq<Seq<Seq<char>>>),
}

/// What reading the column file `file` gives: its rows chunk by chunk, or the
/// message and kind of the failure.
pub open spec fn spec_read_file(file: Seq<u8>) -> Result<FileContents, (Seq<char>, FailureKind)> {
    if file.len() < 16 {
        Err(("failed to read header"@, FailureKind::Read))
    } else {
        match spec_parse_header(file.take(16)) {
            Err(e) => Err(("failed to parse header"@, failure_kind(e))),
            Ok((ColumnType::Int64, n)) => match int64_chunks(file, 16, n as nat) {
                Ok(v) => Ok(FileContents::Int64(v)),
                Err(f) => Err(f),
            },
            Ok((ColumnType::Str, n)) => match str_chunks(file, 16, n as nat) {
                Ok(v) => Ok(FileContents::Str(v)),
                Err(f) => Err(f),
            },
        }
    }
}

/// The rows of a `ReadResult`.
pub open spec fn read_result_view(r: ReadResult) -> FileContents {
    match r {
        ReadResult::Int64(v) => FileContents::Int64(v@.map_values(|c: Vec<i64>| c@)),
        ReadResult::Str(v) => FileContents::Str(
            v@.map_values(|c: Vec<String>| c@.map_values(|s: String| s@)),
        ),
    }
}

/// Whether `r` is what `expected` describes.
pub open spec fn read_outcome_is(
    r: Result<ReadResult, ReadError>,
    expected: Result<FileContents, (Seq<char>, FailureKind)>,
) -> bool {
    match expected {
        Ok(c) => r matches Ok(v) && read_result_view(v) == c,
        Err((m, k)) => r matches Err(e) && read_error_is(e, m, k),
    }
}

/// Reads the header of the chunk at `*pos` and its data, and moves `*pos`
/// past the chunk: gives the number of rows and the data.
pub fn read_chunk_header(file: &[u8], pos: &mut usize) -> (r: Result<(u64, Vec<u8>), ReadError>)
    ensures
        *old(pos) + 16 > file@.len() ==> (r matches Err(e) && read_error_is(
            e,
            "failed to read chunk header"@,
            FailureKind::Read,
        )),
        *old(pos) + 16 <= file@.len() ==> match chunk_at(file@, *old(pos) as int) {
            None => r matches Err(e) && read_error_is(e, "failed to read chunk"@, FailureKind::Read),
            Some((data, h)) => {
                &&& r matches Ok((rows, d)) && rows == h.rows && d@ == data
                &&& *final(pos) == *old(pos) + 16 + h.bytes
            },
        },
{
    let len = file.len();
    if *pos > len || len - *pos < 16 {
        return Err(
            ReadError::IoError(String::from_str("failed to read chunk header"), unexpected_eof()),
        );
    }
    let p = *pos;
    let header_buf = copy_16(file, p);
    let chunk_header = match parse_chunk_header(&header_buf) {
        Ok(h) => h,
        Err(e) => {
            return Err(ReadError::DeserializerError(String::from_str("failed to parse chunk"), e));
        },
    };
    if chunk_header.bytes > (len - p - 16) as u64 {
        return Err(ReadError::IoError(String::from_str("failed to read chunk"), unexpected_eof()));
    }
    let end = p + 16 + chunk_header.bytes as usize;
    let chunk_bytes = copy_range(file, p + 16, end);
    *pos = end;
    Ok((chunk_header.rows, chunk_bytes))
}

/// Decodes all rows of an int64 chunk's data.
pub fn read_int64_chunk(rows: u64, data: &[u8]) -> (r: Result<Vec<i64>, ReadError>)
    ensures
        match int64_chunk_outcome(data@, rows) {
            Ok(v) => r matches Ok(w) && w@ == v,
            Err((m, k)) => r matches Err(e) && read_error_is(e, m, k),
        },
{
    let mut it = match parse_int64_chunk(rows, data) {
        Ok(it) => it,
        Err(e) => {
            return Err(ReadError::DeserializerError(String::from_str("failed to parse first int"), e));
        },
    };
    let ghost total = int64_rows(data@, it.pos as nat, rows as nat, it.leader);
    let mut out: Vec<i64> = Vec::new();
    loop
        invariant
            !it.error,
            it.data == data,
            int64_chunk_outcome(data@, rows) == match total {
                Some(v) => Ok(v),
                None => Err::<Seq<i64>, (Seq<char>, FailureKind)>(
                    ("failed to parse int chunk"@, FailureKind::Int64),
                ),
            },
            total == match int64_rows(data@, it.pos as nat, it.remaining_items as nat, it.leader) {
                Some(rest) => Some(out@ + rest),
                None => None::<Seq<i64>>,
            },
        decreases it.remaining_items,
    {
        let ghost before = it;
        match it.next() {
            None => {
                assert(out@ + seq![] =~= out@);
                return Ok(out);
            },
            Some(Ok(x)) => {
                proof {
                    let rest = int64_rows(data@, it.pos as nat, it.remaining_items as nat, it.leader);
                    if let Some(r2) = rest {
                        assert(out@.push(x) + r2 =~= out@ + (seq![x] + r2));
                    }
                }
                out.push(x);
            },
            Some(Err(e)) => {
                return Err(ReadError::DeserializerError(String::from_str("failed to parse int chunk"), e));
            },
        }
    }
}

/// Decodes all rows of a string chunk's data.
pub fn read_str_chunk(rows: u64, data: &[u8]) -> (r: Result<Vec<String>, ReadError>)
    ensures
        match str_chunk_outcome(data@, rows) {
            Ok(v) => r matches Ok(w) && w@.map_values(|s: String| s@) == v,
            Err((m, k)) => r matches Err(e) && read_error_is(e, m, k),
        },
{
    let mut it = match parse_str_chunk(rows, data) {
        Ok(it) => it,
        Err(e) => {
            return Err(ReadError::DeserializerError(String::from_str("failed to parse string chunk"), e));
        },
    };
    if it.failure.is_some() {
        if let Some(Err(e)) = it.next() {
            return Err(ReadError::DeserializerError(String::from_str("failed to parse string chunk"), e));
        }
    }
    let ghost dec = it.decoded@;
    let ghost total = str_rows(dec, 0, it.remaining_items as nat);
    let mut out: Vec<String> = Vec::new();
    loop
        invariant
            !it.error,
            it.failure is None,
            it.decoded@ == dec,
            total == match str_rows(dec, it.pos as nat, it.remaining_items as nat) {
                Some(rest) => Some(out@.map_values(|s: String| s@) + rest),
                None => None::<Seq<Seq<char>>>,
            },
            total is None ==> str_rows_failure(dec, 0, rows as nat) == str_rows_failure(
                dec,
                it.pos as nat,
                it.remaining_items as nat,
            ),
            rows != 0 ==> zstd_decoded(data@) == Some(dec),
            rows == 0 ==> it.remaining_items == 0,
            rows != 0 ==> total == str_rows(dec, 0, rows as nat),
            str_chunk_outcome(data@, rows) == match total {
                Some(v) => Ok(v),
                None => Err::<Seq<Seq<char>>, (Seq<char>, FailureKind)>(
                    ("failed to parse string chunk"@, str_rows_failure(dec, 0, rows as nat)),
                ),
            },
        decreases it.remaining_items,
    {
        match it.next() {
            None => {
                assert(out@.map_values(|s: String| s@) + seq![] =~= out@.map_values(|s: String| s@));
                return Ok(out);
            },
            Some(Ok(x)) => {
                proof {
                    let rest = str_rows(dec, it.pos as nat, it.remaining_items as nat);
                    if let Some(r2) = rest {
                        assert(out@.push(x).map_values(|s: String| s@) + r2 =~= out@.map_values(
                            |s: String| s@,
                        ) + (seq![x@] + r2));
                    }
                }
                out.push(x);
            },
            Some(Err(e)) => {
                return Err(ReadError::DeserializerError(String::from_str("failed to parse string chunk"), e));
            },
        }
    }
}


/// Reads a whole column file: its header, then every chunk and every row.
pub fn read_file(file: &[u8]) -> (r: Result<ReadResult, ReadError>)
    ensures
        read_outcome_is(r, spec_read_file(file@)),
{
    if file.len() < HEADER_SIZE {
        return Err(ReadError::IoError(String::from_str("failed to read header"), unexpected_eof()));
    }
    let buf = copy_16(file, 0);
    assert(buf@ =~= file@.take(16));
    let (column_type, chunks) = match parse_header(&buf) {
        Ok(h) => h,
        Err(e) => {
            return Err(ReadError::DeserializerError(String::from_str("failed to parse header"), e));
        },
    };
    let mut pos: usize = HEADER_SIZE;
    let mut chunk: u64 = 0;
    match column_type {
        ColumnType::Int64 => {
            let mut result: Vec<Vec<i64>> = Vec::new();
            while chunk < chunks
                invariant
                    chunk <= chunks,
                    spec_read_file(file@) == match int64_chunks(file@, 16, chunks as nat) {
                        Ok(v) => Ok(FileContents::Int64(v)),
                        Err(f) => Err(f),
                    },
                    int64_chunks(file@, 16, chunks as nat) == match int64_chunks(
                        file@,
                        pos as int,
                        (chunks - chunk) as nat,
                    ) {
                        Ok(rest) => Ok(result@.map_values(|c: Vec<i64>| c@) + rest),
                        Err(f) => Err(f),
                    },
                decreases chunks - chunk,
            {
                let ghost p0 = pos;
                let (rows, chunk_bytes) = match read_chunk_header(file, &mut pos) {
                    Ok(x) => x,
                    Err(e) => {
                        return Err(e);
                    },
                };
                let data = match read_int64_chunk(rows, chunk_bytes.as_slice()) {
                    Ok(d) => d,
                    Err(e) => {
                        return Err(e);
                    },
                };
                proof {
                    let rest = int64_chunks(file@, pos as int, (chunks - chunk - 1) as nat);
                    if let Ok(r2) = rest {
                        assert(result@.push(data).map_values(|c: Vec<i64>| c@) + r2
                            =~= result@.map_values(|c: Vec<i64>| c@) + (seq![data@] + r2));
                    }
                }
                result.push(data);
                chunk += 1;
            }
            assert(result@.map_values(|c: Vec<i64>| c@) + seq![] =~= result@.map_values(
                |c: Vec<i64>| c@,
            ));
            Ok(ReadResult::Int64(result))
        },
        ColumnType::Str => {
            let mut result: Vec<Vec<String>> = Vec::new();
            while chunk < chunks
                invariant
                    chunk <= chunks,
                    spec_read_file(file@) == match str_chunks(file@, 16, chunks as nat) {
                        Ok(v) => Ok(FileContents::Str(v)),
                        Err(f) => Err(f),
                    },
                    str_chunks(file@, 16, chunks as nat) == match str_chunks(
                        file@,
                        pos as int,
                        (chunks - chunk) as nat,
                    ) {
                        Ok(rest) => Ok(
                            result@.map_values(|c: Vec<String>| c@.map_values(|s: String| s@))
                                + rest,
                        ),
                        Err(f) => Err(f),
                    },
                decreases chunks - chunk,
            {
                let (rows, chunk_bytes) = match read_chunk_header(file, &mut pos) {
                    Ok(x) => x,
                    Err(e) => {
                        return Err(e);
                    },
                };
                let data = match read_str_chunk(rows, chunk_bytes.as_slice()) {
                    Ok(d) => d,
                    Err(e) => {
                        return Err(e);
                    },
                };
                proof {
                    let f = |c: Vec<String>| c@.map_values(|s: String| s@);
                    let rest = str_chunks(file@, pos as int, (chunks - chunk - 1) as nat);
                    if let Ok(r2) = rest {
                        assert(result@.push(data).map_values(f) + r2 =~= result@.map_values(f) + (
                        seq![f(data)] + r2));
                    }
                }
                result.push(data);
                chunk += 1;
            }
            assert(result@.map_values(|c: Vec<String>| c@.map_values(|s: String| s@)) + seq![]
                =~= result@.map_values(|c: Vec<String>| c@.map_values(|s: String| s@)));
            Ok(ReadResult::Str(result))
        },
    }
}


/// A column file of int64 chunks holding `chunks`.
pub open spec fn int64_file_bytes(chunks: Seq<Seq<i64>>) -> Seq<u8> {
    header_bytes(ColumnType::Int64, chunks.len() as u64) + chunks.map_values(
        |c: Seq<i64>| int64_chunk_bytes(c),
    ).flatten()
}

/// The values of `c` can be stored in one int64 chunk: their number and the
/// length of the chunk's data fit the fields of the chunk header.
pub open spec fn int64_chunk_fits(c: Seq<i64>) -> bool {
    &&& c.len() <= u64::MAX
    &&& int64_payload(c).len() <= u64::MAX
}

proof fn lemma_int64_chunks_read(file: Seq<u8>, pos: int, cs: Seq<Seq<i64>>)
    requires
        0 <= pos,
        pos + cs.map_values(|c: Seq<i64>| int64_chunk_bytes(c)).flatten().len() <= file.len(),
        file.subrange(pos, pos + cs.map_values(|c: Seq<i64>| int64_chunk_bytes(c)).flatten().len())
            == cs.map_values(|c: Seq<i64>| int64_chunk_bytes(c)).flatten(),
        forall|i: int| 0 <= i < cs.len() ==> int64_chunk_fits(#[trigger] cs[i]),
    ensures
        int64_chunks(file, pos, cs.len()) == Ok::<Seq<Seq<i64>>, (Seq<char>, FailureKind)>(cs),
    decreases cs.len(),
{
    if cs.len() > 0 {
        let f = |c: Seq<i64>| int64_chunk_bytes(c);
        let m = cs.map_values(f);
        assert(m.drop_first() =~= cs.drop_first().map_values(f));
        let flat = m.flatten();
        let c0 = int64_chunk_bytes(cs[0]);
        let rest = cs.drop_first().map_values(f).flatten();
        assert(flat == c0 + rest);
        assert(int64_chunk_fits(cs[0]));
        lemma_int64_chunk_roundtrip(cs[0]);
        assert(file.subrange(pos, pos + 16) =~= c0.take(16)) by {
            assert(file.subrange(pos, pos + 16) =~= flat.subrange(0, 16));
        }
        let h = spec_chunk_header(c0.take(16));
        assert(file.subrange(pos + 16, pos + 16 + h.bytes) =~= c0.skip(16)) by {
            assert(file.subrange(pos + 16, pos + 16 + h.bytes) =~= flat.subrange(16, c0.len() as int));
        }
        assert(file.subrange(pos + c0.len(), pos + c0.len() + rest.len()) =~= rest) by {
            assert(file.subrange(pos + c0.len(), pos + c0.len() + rest.len()) =~= flat.subrange(
                c0.len() as int,
                flat.len() as int,
            ));
        }
        assert forall|i: int| 0 <= i < cs.drop_first().len() implies int64_chunk_fits(
            #[trigger] cs.drop_first()[i],
        ) by {
            assert(cs.drop_first()[i] == cs[i + 1]);
        }
        lemma_int64_chunks_read(file, pos + c0.len(), cs.drop_first());
        assert(chunk_at(file, pos) == Some((c0.skip(16), h)));
        assert(int64_chunk_outcome(c0.skip(16), h.rows) == Ok::<Seq<i64>, (Seq<char>, FailureKind)>(cs[0]));
        assert(seq![cs[0]] + cs.drop_first() =~= cs);
    } else {
        assert(cs =~= seq![]);
    }
}

/// A column file written as a header and int64 chunks reads back as the
/// values of those chunks, chunk by chunk.
pub proof fn lemma_int64_file_roundtrip(chunks: Seq<Seq<i64>>)
    requires
        chunks.len() <= u64::MAX,
        forall|i: int| 0 <= i < chunks.len() ==> int64_chunk_fits(#[trigger] chunks[i]),
    ensures
        spec_read_file(int64_file_bytes(chunks)) == Ok::<FileContents, (Seq<char>, FailureKind)>(
            FileContents::Int64(chunks),
        ),
{
    let file = int64_file_bytes(chunks);
    let h = header_bytes(ColumnType::Int64, chunks.len() as u64);
    let flat = chunks.map_values(|c: Seq<i64>| int64_chunk_bytes(c)).flatten();
    lemma_header_roundtrip(ColumnType::Int64, chunks.len() as u64);
    assert(file.take(16) =~= h);
    assert(file.subrange(16, 16 + flat.len() as int) =~= flat);
    lemma_int64_chunks_read(file, 16, chunks);
}

/// The string chunks of a column file: chunk `i` holds the rows
/// `chunks[i]`, compressed into `frames[i]`.
pub open spec fn str_chunk_list(chunks: Seq<Seq<Seq<char>>>, frames: Seq<Seq<u8>>) -> Seq<Seq<u8>> {
    Seq::new(chunks.len(), |i: int| str_chunk_bytes(chunks[i].len(), frames[i]))
}

/// A column file of string chunks: chunk `i` holds the rows `chunks[i]`,
/// compressed into `frames[i]`.
pub open spec fn str_file_bytes(chunks: Seq<Seq<Seq<char>>>, frames: Seq<Seq<u8>>) -> Seq<u8> {
    header_bytes(ColumnType::Str, chunks.len() as u64) + str_chunk_list(chunks, frames).flatten()
}

/// The rows `rows` stored in one string chunk as the frame `frame`: their
/// count and the frame's length fit the chunk header, each string's UTF-8
/// length fits a `u32`, and the frame decompresses to their data.
pub open spec fn str_chunk_stored(rows: Seq<Seq<char>>, frame: Seq<u8>) -> bool {
    &&& rows.len() <= u64::MAX
    &&& frame.len() <= u64::MAX
    &&& forall|k: int| 0 <= k < rows.len() ==> vstd::utf8::encode_utf8(#[trigger] rows[k]).len() <= u32::MAX
    &&& rows.len() > 0 ==> zstd_decoded(frame) == Some(str_payload(rows))
}

proof fn lemma_str_chunks_read(file: Seq<u8>, pos: int, cs: Seq<Seq<Seq<char>>>, fs: Seq<Seq<u8>>)
    requires
        0 <= pos,
        cs.len() == fs.len(),
        pos + str_chunk_list(cs, fs).flatten().len() <= file.len(),
        file.subrange(pos, pos + str_chunk_list(cs, fs).flatten().len()) == str_chunk_list(cs, fs).flatten(),
        forall|i: int| 0 <= i < cs.len() ==> str_chunk_stored(#[trigger] cs[i], fs[i]),
    ensures
        str_chunks(file, pos, cs.len()) == Ok::<Seq<Seq<Seq<char>>>, (Seq<char>, FailureKind)>(cs),
    decreases cs.len(),
{
    if cs.len() > 0 {
        let m = str_chunk_list(cs, fs);
        assert(m.drop_first() =~= str_chunk_list(cs.drop_first(), fs.drop_first()));
        let flat = m.flatten();
        let c0 = m[0];
        let rest = m.drop_first().flatten();
        assert(m =~= seq![c0] + m.drop_first());
        vstd::seq_lib::lemma_flatten_concat(seq![c0], m.drop_first());
        seq![c0].lemma_flatten_singleton();
        assert(flat == c0 + rest);
        assert(str_chunk_stored(cs[0], fs[0]));
        let rows = cs[0].len();
        let frame = fs[0];
        assert(c0 == str_chunk_bytes(rows, frame));
        lemma_be_u64_roundtrip(frame.len() as u64);
        lemma_be_u64_roundtrip(rows as u64);
        assert(c0.take(16).take(8) =~= crate::be_bytes::be_u64_bytes(frame.len() as u64));
        assert(c0.take(16).subrange(8, 16) =~= crate::be_bytes::be_u64_bytes(rows as u64));
        let h = spec_chunk_header(c0.take(16));
        assert(h == ChunkHeader { bytes: frame.len() as u64, rows: rows as u64 });
        assert(file.subrange(pos, pos + 16) =~= c0.take(16)) by {
            assert(file.subrange(pos, pos + 16) =~= flat.subrange(0, 16));
        }
        assert(file.subrange(pos + 16, pos + 16 + h.bytes) =~= frame) by {
            assert(file.subrange(pos + 16, pos + 16 + h.bytes) =~= flat.subrange(16, c0.len() as int));
        }
        assert(file.subrange(pos + c0.len(), pos + c0.len() + rest.len()) =~= rest) by {
            assert(file.subrange(pos + c0.len(), pos + c0.len() + rest.len()) =~= flat.subrange(
                c0.len() as int,
                flat.len() as int,
            ));
        }
        assert forall|i: int| 0 <= i < cs.drop_first().len() implies str_chunk_stored(
            #[trigger] cs.drop_first()[i],
            fs.drop_first()[i],
        ) by {
            assert(cs.drop_first()[i] == cs[i + 1]);
            assert(fs.drop_first()[i] == fs[i + 1]);
        }
        lemma_str_chunks_read(file, pos + c0.len(), cs.drop_first(), fs.drop_first());
        assert(chunk_at(file, pos) == Some((frame, h)));
        if rows > 0 {
            lemma_str_payload_roundtrip(cs[0]);
        } else {
            assert(cs[0] =~= seq![]);
        }
        assert(str_chunk_outcome(frame, h.rows) == Ok::<Seq<Seq<char>>, (Seq<char>, FailureKind)>(cs[0]));
        assert(seq![cs[0]] + cs.drop_first() =~= cs);
    } else {
        assert(cs =~= seq![]);
    }
}

/// A column file written as a header and string chunks reads back as the
/// strings of those chunks, chunk by chunk, given that each chunk's frame
/// decompresses to the data it was made of.
pub proof fn lemma_str_file_roundtrip(chunks: Seq<Seq<Seq<char>>>, frames: Seq<Seq<u8>>)
    requires
        chunks.len() <= u64::MAX,
        chunks.len() == frames.len(),
        forall|i: int| 0 <= i < chunks.len() ==> str_chunk_stored(#[trigger] chunks[i], frames[i]),
    ensures
        spec_read_file(str_file_bytes(chunks, frames)) == Ok::<FileContents, (Seq<char>, FailureKind)>(
            FileContents::Str(chunks),
        ),
{
    let file = str_file_bytes(chunks, frames);
    let h = header_bytes(ColumnType::Str, chunks.len() as u64);
    let flat = str_chunk_list(chunks, frames).flatten();
    lemma_header_roundtrip(ColumnType::Str, chunks.len() as u64);
    assert(file.take(16) =~= h);
    assert(file.subrange(16, 16 + flat.len() as int) =~= flat);
    lemma_str_chunks_read(file, 16, chunks, frames);
}

} // verus!
