//! Building column files: starting a new file or continuing an existing
//! one, and recording how many chunks it holds.
use vstd::prelude::*;
use crate::be_bytes::{be_u64_bytes, be_u64_value, lemma_be_u64_roundtrip};
use crate::column_file::copy_16;
use crate::column_file::{
    FileContents, FailureKind, int64_chunk_fits, int64_file_bytes, lemma_int64_file_roundtrip,
    lemma_str_file_roundtrip, spec_read_file, str_chunk_list, str_chunk_stored, str_file_bytes,
};
use crate::format::{
    ColumnType, DeserializerError, create_header, header_bytes, int64_chunk_bytes,
    lemma_header_roundtrip, parse_header, spec_parse_header,
};

verus! {

/// Why an existing file cannot be continued as a column file.
#[derive(Debug)]
pub enum AppendError {
    /// The file has some bytes but fewer than four.
    TooShort,
    /// The file has fewer bytes than a header.
    HeaderUnreadable,
    /// The file does not start with a header.
    InvalidHeader(DeserializerError),
    /// The file holds a column of another type.
    DifferentType(ColumnType),
}

/// What continuing the column file `existing` with values of type
/// `datatype` starts from: the file's bytes and how many chunks it holds
/// (for an empty file, a header with no chunks), or why it cannot be done.
pub open spec fn spec_start_column_file(existing: Seq<u8>, datatype: ColumnType) -> Result<
    (Seq<u8>, u64),
    AppendError,
> {
    if existing.len() == 0 {
        Ok((header_bytes(datatype, 0), 0))
    } else if existing.len() < 4 {
        Err(AppendError::TooShort)
    } else if existing.len() < 16 {
        Err(AppendError::HeaderUnreadable)
    } else {
        match spec_parse_header(existing.take(16)) {
            Err(e) => Err(AppendError::InvalidHeader(e)),
            Ok((t, n)) => if t != datatype {
                Err(AppendError::DifferentType(t))
            } else {
                Ok((existing, n))
            },
        }
    }
}

/// Whatever file a column is started from, the bytes to append chunks to
/// begin with a header that gives the requested type and the number of
/// chunks they hold; an empty file is started as a header of that type with
/// no chunks.
pub proof fn lemma_start_header(existing: Seq<u8>, datatype: ColumnType)
    ensures
        spec_start_column_file(existing, datatype) matches Ok((b, n)) ==> b.len() >= 16
            && spec_parse_header(b.take(16)) == Ok::<(ColumnType, u64), DeserializerError>(
            (datatype, n),
        ),
        existing.len() == 0 ==> (spec_start_column_file(existing, datatype) matches Ok((b, n))
            && n == 0 && b.len() == 16 && spec_parse_header(b) == Ok::<
            (ColumnType, u64),
            DeserializerError,
        >((datatype, 0))),
{
    lemma_header_roundtrip(datatype, 0);
    assert(header_bytes(datatype, 0).take(16) =~= header_bytes(datatype, 0));
}

/// Starts writing values of type `datatype` to the column file whose bytes
/// are `existing`: gives the bytes to append chunks to and the number of
/// chunks they hold.
pub fn start_column_file(existing: &[u8], datatype: ColumnType) -> (r: Result<
    (Vec<u8>, u64),
    AppendError,
>)
    ensures
        match spec_start_column_file(existing@, datatype) {
            Ok((bytes, n)) => r matches Ok((b, m)) && b@ == bytes && m == n,
            Err(e) => r matches Err(f) && f == e,
        },
        r matches Ok((b, n)) ==> b@.len() >= 16 && spec_parse_header(b@.take(16)) == Ok::<
            (ColumnType, u64),
            DeserializerError,
        >((datatype, n)),
{
    proof {
        lemma_start_header(existing@, datatype);
    }
    let len = existing.len();
    if len == 0 {
        let mut header: Vec<u8> = Vec::new();
        create_header(&mut header, datatype, 0);
        assert(header@ =~= header_bytes(datatype, 0));
        return Ok((header, 0));
    }
    if len < 4 {
        return Err(AppendError::TooShort);
    }
    if len < 16 {
        return Err(AppendError::HeaderUnreadable);
    }
    let buf = copy_16(existing, 0);
    assert(existing@.subrange(0, 16) =~= existing@.take(16));
    match parse_header(&buf) {
        Err(e) => Err(AppendError::InvalidHeader(e)),
        Ok((t, n)) => {
            if t != datatype {
                Err(AppendError::DifferentType(t))
            } else {
                let mut bytes: Vec<u8> = Vec::new();
                let mut i: usize = 0;
                while i < len
                    invariant
                        len == existing@.len(),
                        i <= len,
                        bytes@ == existing@.take(i as int),
                    decreases len - i,
                {
                    assert(existing@.take(i + 1) =~= existing@.take(i as int).push(existing@[i as int]));
                    bytes.push(existing[i]);
                    i += 1;
                }
                assert(existing@.take(len as int) =~= existing@);
                Ok((bytes, n))
            }
        },
    }
}

/// The column file `file` with its chunk count set to `n`.
pub open spec fn with_chunk_count(file: Seq<u8>, n: u64) -> Seq<u8> {
    file.take(8) + be_u64_bytes(n) + file.skip(16)
}

/// Records in the header of the column file `file` that it holds `n`
/// chunks.
pub fn set_chunk_count(file: &mut Vec<u8>, n: u64)
    requires
        old(file)@.len() >= 16,
    ensures
        final(file)@ == with_chunk_count(old(file)@, n),
{
    file[8] = (n >> 56) as u8;
    file[9] = (n >> 48) as u8;
    file[10] = (n >> 40) as u8;
    file[11] = (n >> 32) as u8;
    file[12] = (n >> 24) as u8;
    file[13] = (n >> 16) as u8;
    file[14] = (n >> 8) as u8;
    file[15] = n as u8;
    assert(file@ =~= with_chunk_count(old(file)@, n));
}

/// Setting the chunk count of a column file keeps its type and makes its
/// header give the new count; the rest of the file stays as it was.
pub proof fn lemma_chunk_count_update(file: Seq<u8>, n: u64)
    requires
        file.len() >= 16,
        spec_parse_header(file.take(16)) is Ok,
    ensures
        with_chunk_count(file, n).len() == file.len(),
        with_chunk_count(file, n).skip(16) == file.skip(16),
        spec_parse_header(with_chunk_count(file, n).take(16)) == Ok::<
            (ColumnType, u64),
            DeserializerError,
        >((spec_parse_header(file.take(16))->Ok_0.0, n)),
{
    let f = with_chunk_count(file, n);
    let h = f.take(16);
    assert(h.take(4) =~= file.take(16).take(4));
    assert(h.subrange(4, 8) =~= file.take(16).subrange(4, 8));
    assert(h.subrange(8, 16) =~= be_u64_bytes(n));
    lemma_be_u64_roundtrip(n);
    assert(f.skip(16) =~= file.skip(16));
}

/// The int64 chunks holding `chunks`, one after another.
pub open spec fn int64_chunks_bytes(chunks: Seq<Seq<i64>>) -> Seq<u8> {
    chunks.map_values(|c: Seq<i64>| int64_chunk_bytes(c)).flatten()
}

proof fn lemma_count_of_header(datatype: ColumnType, m: u64, n: u64, rest: Seq<u8>)
    ensures
        with_chunk_count(header_bytes(datatype, m) + rest, n) == header_bytes(datatype, n) + rest,
{
    let before = header_bytes(datatype, m) + rest;
    assert(before.take(8) =~= header_bytes(datatype, n).take(8));
    assert(before.skip(16) =~= rest);
    assert(with_chunk_count(before, n) =~= header_bytes(datatype, n) + rest);
}

proof fn lemma_chunks_bytes_concat(old: Seq<Seq<i64>>, new: Seq<Seq<i64>>)
    ensures
        int64_chunks_bytes(old + new) == int64_chunks_bytes(old) + int64_chunks_bytes(new),
{
    let f = |c: Seq<i64>| int64_chunk_bytes(c);
    assert((old + new).map_values(f) =~= old.map_values(f) + new.map_values(f));
    vstd::seq_lib::lemma_flatten_concat(old.map_values(f), new.map_values(f));
}

/// Appending int64 chunks to a column file and then recording the new
/// number of chunks gives the file of all the chunks, which reads back as
/// the old chunks followed by the new ones.
pub proof fn lemma_int64_append(old: Seq<Seq<i64>>, new: Seq<Seq<i64>>)
    requires
        old.len() + new.len() <= u64::MAX,
        forall|i: int| 0 <= i < old.len() ==> int64_chunk_fits(#[trigger] old[i]),
        forall|i: int| 0 <= i < new.len() ==> int64_chunk_fits(#[trigger] new[i]),
    ensures
        with_chunk_count(int64_file_bytes(old) + int64_chunks_bytes(new), (old.len() + new.len()) as u64)
            == int64_file_bytes(old + new),
        spec_read_file(
            with_chunk_count(int64_file_bytes(old) + int64_chunks_bytes(new), (old.len() + new.len()) as u64),
        ) == Ok::<FileContents, (Seq<char>, FailureKind)>(FileContents::Int64(old + new)),
{
    let n = (old.len() + new.len()) as u64;
    let a = int64_chunks_bytes(old);
    let b = int64_chunks_bytes(new);
    let ho = header_bytes(ColumnType::Int64, old.len() as u64);
    assert(int64_file_bytes(old) == ho + a);
    assert(int64_file_bytes(old) + b == ho + (a + b));
    lemma_count_of_header(ColumnType::Int64, old.len() as u64, n, a + b);
    lemma_chunks_bytes_concat(old, new);
    assert((old + new).len() == n);
    assert(int64_file_bytes(old + new) == header_bytes(ColumnType::Int64, n) + (a + b));
    assert forall|i: int| 0 <= i < (old + new).len() implies int64_chunk_fits(#[trigger] (old + new)[i]) by {
        if i < old.len() {
            assert((old + new)[i] == old[i]);
        } else {
            assert((old + new)[i] == new[i - old.len()]);
        }
    }
    lemma_int64_file_roundtrip(old + new);
}

/// Appending string chunks to a column file and then recording the new
/// number of chunks gives the file of all the chunks, which reads back as
/// the old chunks followed by the new ones, given that each chunk's frame
/// decompresses to the data it was made of.
pub proof fn lemma_str_append(
    old: Seq<Seq<Seq<char>>>,
    old_frames: Seq<Seq<u8>>,
    new: Seq<Seq<Seq<char>>>,
    new_frames: Seq<Seq<u8>>,
)
    requires
        old.len() + new.len() <= u64::MAX,
        old.len() == old_frames.len(),
        new.len() == new_frames.len(),
        forall|i: int| 0 <= i < old.len() ==> str_chunk_stored(#[trigger] old[i], old_frames[i]),
        forall|i: int| 0 <= i < new.len() ==> str_chunk_stored(#[trigger] new[i], new_frames[i]),
    ensures
        with_chunk_count(
            str_file_bytes(old, old_frames) + str_chunk_list(new, new_frames).flatten(),
            (old.len() + new.len()) as u64,
        ) == str_file_bytes(old + new, old_frames + new_frames),
        spec_read_file(
            with_chunk_count(
                str_file_bytes(old, old_frames) + str_chunk_list(new, new_frames).flatten(),
                (old.len() + new.len()) as u64,
            ),
        ) == Ok::<FileContents, (Seq<char>, FailureKind)>(FileContents::Str(old + new)),
{
    let n = (old.len() + new.len()) as u64;
    let lo = str_chunk_list(old, old_frames);
    let ln = str_chunk_list(new, new_frames);
    let a = lo.flatten();
    let b = ln.flatten();
    let ho = header_bytes(ColumnType::Str, old.len() as u64);
    assert(str_file_bytes(old, old_frames) + b == ho + (a + b));
    lemma_count_of_header(ColumnType::Str, old.len() as u64, n, a + b);
    assert(str_chunk_list(old + new, old_frames + new_frames) =~= lo + ln);
    vstd::seq_lib::lemma_flatten_concat(lo, ln);
    assert((old + new).len() == n);
    assert(str_file_bytes(old + new, old_frames + new_frames) == header_bytes(ColumnType::Str, n) + (a + b));
    let all = old + new;
    let frames = old_frames + new_frames;
    assert forall|i: int| 0 <= i < all.len() implies str_chunk_stored(#[trigger] all[i], frames[i]) by {
        if i < old.len() {
            assert(all[i] == old[i] && frames[i] == old_frames[i]);
        } else {
            assert(all[i] == new[i - old.len()] && frames[i] == new_frames[i - old.len()]);
        }
    }
    lemma_str_file_roundtrip(all, frames);
}

/// The number of values that the column file tool puts in a full chunk.
pub const NUM_PER_CHUNK: usize = 8192;

/// What the column file tool does with a batch of values read from its
/// input.
#[derive(Debug, Clone, Copy, PartialEq, Eq, Structural)]
pub enum BatchStep {
    /// The input is exhausted: nothing is written.
    Stop,
    /// The batch is written as a chunk, and more input may follow.
    WriteAndContinue,
    /// The batch is written as the last chunk.
    WriteAndStop,
}

/// Decides what to do with a batch of `batch_len` values, read by asking for
/// a full chunk: an empty batch ends the input, a full one is written and
/// reading goes on, a shorter one is written last.
pub fn batch_step(batch_len: usize) -> (r: BatchStep)
    ensures
        batch_len == 0 ==> r == BatchStep::Stop,
        batch_len == NUM_PER_CHUNK ==> r == BatchStep::WriteAndContinue,
        batch_len != 0 && batch_len != NUM_PER_CHUNK ==> r == BatchStep::WriteAndStop,
{
    if batch_len == 0 {
        BatchStep::Stop
    } else if batch_len != NUM_PER_CHUNK {
        BatchStep::WriteAndStop
    } else {
        BatchStep::WriteAndContinue
    }
}

} // verus!
