//! The column file format.
//!
//! A file is a header followed by chunks:
//!
//! * header: magic `ISBD` (4 bytes), column type (`u32`), number of chunks (`u64`);
//! * chunk header: chunk length in bytes (`u64`, not counting the chunk header),
//!   number of rows (`u64`);
//! * int64 chunk data: the smallest value of the chunk (VLE), then each value
//!   minus that smallest value (VLE);
//! * string chunk data: a zstd frame holding, per row, the byte length (`u32`)
//!   and the UTF-8 bytes of the string.
//!
//! All fixed-width integers are big-endian.
use vstd::prelude::*;
use vstd::utf8::{valid_utf8, decode_utf8, encode_utf8, encode_utf8_valid_utf8, encode_utf8_decode_utf8};
use crate::be_bytes::{
    be_u32_bytes, be_u32_value, be_u64_bytes, be_u64_value, push_u32_be, push_u64_be, read_u32_be,
    read_u64_be, lemma_be_u32_roundtrip, lemma_be_u64_roundtrip,
};
use crate::vle::{
    vle_bytes, vle_decode_i64, suffix, encode_i64_vle, decode_i64_vle_at, lemma_vle_i64_roundtrip,
};

verus! {

/// Declares `std::io::Error` so that it can be carried in errors.
#[verifier::external_type_specification]
#[verifier::external_body]
pub struct ExIoError(std::io::Error);

/// Declares `std::string::FromUtf8Error` so that it can be carried in errors.
#[verifier::external_type_specification]
#[verifier::external_body]
pub struct ExFromUtf8Error(std::string::FromUtf8Error);

/// Type of the values stored in a column file.
#[derive(Debug, Clone, Copy, PartialEq, Eq, Structural)]
pub enum ColumnType {
    Int64,
    Str,
}

/// The number that stands for a column type in the file header.
pub open spec fn column_type_code(t: ColumnType) -> u32 {
    match t {
        ColumnType::Int64 => 0,
        ColumnType::Str => 1,
    }
}

/// The column type that a header number stands for.
pub open spec fn column_type_of_code(code: u32) -> Result<ColumnType, ()> {
    if code == 0 {
        Ok(ColumnType::Int64)
    } else if code == 1 {
        Ok(ColumnType::Str)
    } else {
        Err(())
    }
}

impl TryFrom<u32> for ColumnType {
    type Error = ();

    fn try_from(value: u32) -> (r: Result<Self, Self::Error>) {
        match value {
            0 => Ok(ColumnType::Int64),
            1 => Ok(ColumnType::Str),
            _ => Err(()),
        }
    }
}

impl vstd::std_specs::convert::TryFromSpecImpl<u32> for ColumnType {
    open spec fn obeys_try_from_spec() -> bool {
        true
    }

    open spec fn try_from_spec(value: u32) -> Result<Self, Self::Error> {
        column_type_of_code(value)
    }
}

impl From<ColumnType> for u32 {
    fn from(val: ColumnType) -> (r: u32) {
        match val {
            ColumnType::Int64 => 0,
            ColumnType::Str => 1,
        }
    }
}

impl vstd::std_specs::convert::FromSpecImpl<ColumnType> for u32 {
    open spec fn obeys_from_spec() -> bool {
        true
    }

    open spec fn from_spec(val: ColumnType) -> u32 {
        column_type_code(val)
    }
}

/// Why a file or chunk could not be read.
#[derive(Debug)]
pub enum DeserializerError {
    InvalidMagic,
    InvalidColumnType,
    InvalidInt64,
    TooShort,
    InvalidString(std::string::FromUtf8Error),
    IOError(std::io::Error),
}

/// The magic bytes `ISBD` that open every column file.
pub const MAGIC: [u8; 4] = [73u8, 83u8, 66u8, 68u8];

/// The magic bytes `ISBD`.
pub open spec fn magic_bytes() -> Seq<u8> {
    seq![73u8, 83u8, 66u8, 68u8]
}

/// Size of the file header: two `u32` and one `u64`.
pub const HEADER_SIZE: usize = 16;

/// Size of a chunk header: two `u64`.
pub const CHUNK_HEADER_SIZE: usize = 16;

/// The header of a file with `number_of_chunks` chunks of type `datatype`.
pub open spec fn header_bytes(datatype: ColumnType, number_of_chunks: u64) -> Seq<u8> {
    magic_bytes() + be_u32_bytes(column_type_code(datatype)) + be_u64_bytes(number_of_chunks)
}

/// What the header `buf` (of `HEADER_SIZE` bytes) says: the column type and
/// the number of chunks, or why it is not a header.
pub open spec fn spec_parse_header(buf: Seq<u8>) -> Result<(ColumnType, u64), DeserializerError> {
    if buf.take(4) != magic_bytes() {
        Err(DeserializerError::InvalidMagic)
    } else {
        match column_type_of_code(be_u32_value(buf.subrange(4, 8))) {
            Ok(t) => Ok((t, be_u64_value(buf.subrange(8, 16)))),
            Err(_) => Err(DeserializerError::InvalidColumnType),
        }
    }
}

/// Writes the file header to `writer`.
pub fn create_header(writer: &mut Vec<u8>, datatype: ColumnType, number_of_chunks: u64)
    ensures
        final(writer)@ == old(writer)@ + header_bytes(datatype, number_of_chunks),
{
    let ghost start = writer@;
    writer.push(MAGIC[0]);
    writer.push(MAGIC[1]);
    writer.push(MAGIC[2]);
    writer.push(MAGIC[3]);
    assert(writer@ =~= start + magic_bytes());
    push_u32_be(writer, u32::from(datatype));
    push_u64_be(writer, number_of_chunks);
    assert(writer@ =~= start + header_bytes(datatype, number_of_chunks));
}

/// Reads the file header: the column type and the number of chunks.
pub fn parse_header(buf: &[u8; 16]) -> (r: Result<(ColumnType, u64), DeserializerError>)
    ensures
        r == spec_parse_header(buf@),
{
    if buf[0] != MAGIC[0] || buf[1] != MAGIC[1] || buf[2] != MAGIC[2] || buf[3] != MAGIC[3] {
        assert(buf@.take(4) != magic_bytes()) by {
            if buf@.take(4) == magic_bytes() {
                assert(buf@.take(4)[0] == buf@[0]);
                assert(buf@.take(4)[1] == buf@[1]);
                assert(buf@.take(4)[2] == buf@[2]);
                assert(buf@.take(4)[3] == buf@[3]);
            }
        }
        return Err(DeserializerError::InvalidMagic);
    }
    assert(buf@.take(4) =~= magic_bytes());
    let code = read_u32_be(buf, 4);
    let ctype = match ColumnType::try_from(code) {
        Ok(t) => t,
        Err(_) => {
            return Err(DeserializerError::InvalidColumnType);
        },
    };
    let num_of_chunks = read_u64_be(buf, 8);
    Ok((ctype, num_of_chunks))
}

/// The two numbers of a chunk header.
#[derive(Debug, Clone, Copy, PartialEq, Eq, Structural)]
pub struct ChunkHeader {
    pub bytes: u64,
    pub rows: u64,
}

/// What the chunk header `buf` (of `CHUNK_HEADER_SIZE` bytes) says.
pub open spec fn spec_chunk_header(buf: Seq<u8>) -> ChunkHeader {
    ChunkHeader { bytes: be_u64_value(buf.take(8)), rows: be_u64_value(buf.subrange(8, 16)) }
}

/// Reads a chunk header: the chunk length in bytes and the number of rows.
pub fn parse_chunk_header(buf: &[u8; 16]) -> (r: Result<ChunkHeader, DeserializerError>)
    ensures
        r == Ok::<ChunkHeader, DeserializerError>(spec_chunk_header(buf@)),
{
    let bytes = read_u64_be(buf, 0);
    let rows = read_u64_be(buf, 8);
    assert(buf@.subrange(0, 8) =~= buf@.take(8));
    Ok(ChunkHeader { bytes, rows })
}


/// The header's layout, as the format describes it: `ISBD`, the column type
/// (0 for int64, 1 for strings) and then the chunk count, both big-endian.
pub proof fn lemma_header_layout(number_of_chunks: u64)
    ensures
        header_bytes(ColumnType::Int64, number_of_chunks).take(8) == seq![
            73u8,
            83u8,
            66u8,
            68u8,
            0u8,
            0u8,
            0u8,
            0u8,
        ],
        header_bytes(ColumnType::Str, number_of_chunks).take(8) == seq![
            73u8,
            83u8,
            66u8,
            68u8,
            0u8,
            0u8,
            0u8,
            1u8,
        ],
        header_bytes(ColumnType::Int64, number_of_chunks).skip(8) == be_u64_bytes(number_of_chunks),
        header_bytes(ColumnType::Str, number_of_chunks).skip(8) == be_u64_bytes(number_of_chunks),
{
    assert((0u32 >> 24u32) as u8 == 0u8 && (0u32 >> 16u32) as u8 == 0u8 && (0u32 >> 8u32) as u8
        == 0u8 && 0u32 as u8 == 0u8) by (bit_vector);
    assert((1u32 >> 24u32) as u8 == 0u8 && (1u32 >> 16u32) as u8 == 0u8 && (1u32 >> 8u32) as u8
        == 0u8 && 1u32 as u8 == 1u8) by (bit_vector);
    assert(be_u32_bytes(0) =~= seq![0u8, 0u8, 0u8, 0u8]);
    assert(be_u32_bytes(1) =~= seq![0u8, 0u8, 0u8, 1u8]);
    assert(header_bytes(ColumnType::Int64, number_of_chunks).take(8) =~= seq![
        73u8,
        83u8,
        66u8,
        68u8,
        0u8,
        0u8,
        0u8,
        0u8,
    ]);
    assert(header_bytes(ColumnType::Str, number_of_chunks).take(8) =~= seq![
        73u8,
        83u8,
        66u8,
        68u8,
        0u8,
        0u8,
        0u8,
        1u8,
    ]);
    assert(header_bytes(ColumnType::Int64, number_of_chunks).skip(8) =~= be_u64_bytes(number_of_chunks));
    assert(header_bytes(ColumnType::Str, number_of_chunks).skip(8) =~= be_u64_bytes(number_of_chunks));
}

/// Reading back a header gives the column type and chunk count it was
/// written with.
pub proof fn lemma_header_roundtrip(datatype: ColumnType, number_of_chunks: u64)
    ensures
        header_bytes(datatype, number_of_chunks).len() == HEADER_SIZE,
        spec_parse_header(header_bytes(datatype, number_of_chunks)) == Ok::<
            (ColumnType, u64),
            DeserializerError,
        >((datatype, number_of_chunks)),
{
    let h = header_bytes(datatype, number_of_chunks);
    assert(h.take(4) =~= magic_bytes());
    assert(h.subrange(4, 8) =~= be_u32_bytes(column_type_code(datatype)));
    assert(h.subrange(8, 16) =~= be_u64_bytes(number_of_chunks));
    lemma_be_u32_roundtrip(column_type_code(datatype));
    lemma_be_u64_roundtrip(number_of_chunks);
}

/// Appends all of `b` to `out`.
pub fn append_bytes(out: &mut Vec<u8>, b: &[u8])
    ensures
        final(out)@ == old(out)@ + b@,
{
    let ghost start = out@;
    let mut i: usize = 0;
    while i < b.len()
        invariant
            i <= b@.len(),
            out@ == start + b@.take(i as int),
        decreases b@.len() - i,
    {
        out.push(b[i]);
        assert(b@.take(i + 1) =~= b@.take(i as int).push(b@[i as int]));
        i += 1;
    }
    assert(b@.take(b@.len() as int) =~= b@);
}

/// The smallest value of `s` (zero for an empty sequence).
pub open spec fn seq_min(s: Seq<i64>) -> i64
    decreases s.len(),
{
    if s.len() == 0 {
        0
    } else if s.len() == 1 {
        s[0]
    } else {
        let m = seq_min(s.drop_last());
        if s.last() < m {
            s.last()
        } else {
            m
        }
    }
}

/// The smallest value of a nonempty sequence is one of its values and no
/// value is smaller.
pub proof fn lemma_seq_min(s: Seq<i64>)
    ensures
        forall|i: int| 0 <= i < s.len() ==> seq_min(s) <= #[trigger] s[i],
        s.len() > 0 ==> exists|i: int| 0 <= i < s.len() && seq_min(s) == s[i],
    decreases s.len(),
{
    if s.len() > 1 {
        lemma_seq_min(s.drop_last());
        assert forall|i: int| 0 <= i < s.len() implies seq_min(s) <= #[trigger] s[i] by {
            if i < s.len() - 1 {
                assert(s[i] == s.drop_last()[i]);
            }
        }
        let m = seq_min(s.drop_last());
        if !(s.last() < m) {
            let j = choose|j: int| 0 <= j < s.drop_last().len() && m == s.drop_last()[j];
            assert(s[j] == m);
        } else {
            assert(s[s.len() - 1] == seq_min(s));
        }
    } else if s.len() == 1 {
        assert(s[0] == seq_min(s));
    }
}

/// The 64 bits of `d`, read as an unsigned number.
pub proof fn lemma_i64_bits(d: i64)
    ensures
        (d as u64) as int == if d < 0 {
            d + 0x1_0000_0000_0000_0000
        } else {
            d as int
        },
{
    assert(d < 0 ==> (d as u64) as int == d as int + 0x1_0000_0000_0000_0000int) by (bit_vector);
    assert(d >= 0 ==> (d as u64) as int == d as int) by (bit_vector);
}

/// The offset `x - min` of a value from the smallest value, taken with
/// wraparound in an `i64`: its bits, read unsigned, are the true offset.
pub proof fn lemma_offset_bits(x: i64, min: i64)
    requires
        min <= x,
    ensures
        (x.wrapping_sub(min) as u64) as int == x - min,
        x.wrapping_sub(min).wrapping_add(min) == x,
{
    lemma_i64_bits(x.wrapping_sub(min));
}

/// The encodings of the values of `nums` minus `min`, one after another.
pub open spec fn int64_deltas(nums: Seq<i64>, min: i64) -> Seq<u8> {
    nums.map_values(|x: i64| vle_bytes((x - min) as nat)).flatten()
}

/// The data of an int64 chunk: its smallest value, then the offsets of all
/// values from it.
pub open spec fn int64_payload(nums: Seq<i64>) -> Seq<u8> {
    vle_bytes((seq_min(nums) as u64) as nat) + int64_deltas(nums, seq_min(nums))
}

/// A whole int64 chunk, chunk header included.
pub open spec fn int64_chunk_bytes(nums: Seq<i64>) -> Seq<u8> {
    be_u64_bytes(int64_payload(nums).len() as u64) + be_u64_bytes(nums.len() as u64)
        + int64_payload(nums)
}

/// Builds an int64 chunk (chunk header included) from `nums`.
pub fn create_int64_chunk(nums: &[i64]) -> (result: Vec<u8>)
    ensures
        result@ == int64_chunk_bytes(nums@),
{
    let mut min_num: i64 = 0;
    if nums.len() > 0 {
        min_num = nums[0];
        let mut i: usize = 1;
        while i < nums.len()
            invariant
                1 <= i <= nums@.len(),
                min_num == seq_min(nums@.take(i as int)),
            decreases nums@.len() - i,
        {
            assert(nums@.take(i + 1).drop_last() =~= nums@.take(i as int));
            if nums[i] < min_num {
                min_num = nums[i];
            }
            i += 1;
        }
        assert(nums@.take(nums@.len() as int) =~= nums@);
    }
    proof {
        lemma_seq_min(nums@);
    }
    let mut payload: Vec<u8> = Vec::new();
    let first = encode_i64_vle(min_num);
    append_bytes(&mut payload, first.as_slice());
    let ghost head = payload@;
    let mut j: usize = 0;
    while j < nums.len()
        invariant
            j <= nums@.len(),
            min_num == seq_min(nums@),
            forall|k: int| 0 <= k < nums@.len() ==> min_num <= #[trigger] nums@[k],
            head == vle_bytes((min_num as u64) as nat),
            payload@ == head + int64_deltas(nums@.take(j as int), min_num),
        decreases nums@.len() - j,
    {
        let num = nums[j];
        assert(num >= min_num);
        let delta = num.wrapping_sub(min_num);
        let enc = encode_i64_vle(delta);
        proof {
            lemma_offset_bits(num, min_num);
        }
        append_bytes(&mut payload, enc.as_slice());
        proof {
            let f = |x: i64| vle_bytes((x - min_num) as nat);
            assert(nums@.take(j + 1).map_values(f) =~= nums@.take(j as int).map_values(f).push(
                f(num),
            ));
            nums@.take(j as int).map_values(f).lemma_flatten_push(f(num));
        }
        j += 1;
    }
    assert(nums@.take(nums@.len() as int) =~= nums@);
    let mut result: Vec<u8> = Vec::new();
    push_u64_be(&mut result, payload.len() as u64);
    push_u64_be(&mut result, nums.len() as u64);
    append_bytes(&mut result, payload.as_slice());
    assert(result@ =~= int64_chunk_bytes(nums@));
    result
}

/// The rows that `count` encoded offsets starting at index `pos` of `data`
/// give when added (with wraparound) to `leader`, or `None` when one of them
/// cannot be decoded.
pub open spec fn int64_rows(data: Seq<u8>, pos: nat, count: nat, leader: i64) -> Option<Seq<i64>>
    decreases count,
{
    if count == 0 {
        Some(seq![])
    } else {
        match vle_decode_i64(suffix(data, pos as int)) {
            None => None,
            Some((d, n)) => match int64_rows(data, pos + n, (count - 1) as nat, leader) {
                None => None,
                Some(rest) => Some(seq![d.wrapping_add(leader)] + rest),
            },
        }
    }
}

/// Where in `data` the `count` encoded offsets starting at index `pos` end,
/// or `None` when one of them cannot be decoded.
pub open spec fn int64_rows_end(data: Seq<u8>, pos: nat, count: nat) -> Option<nat>
    decreases count,
{
    if count == 0 {
        Some(pos)
    } else {
        match vle_decode_i64(suffix(data, pos as int)) {
            None => None,
            Some((d, n)) => int64_rows_end(data, pos + n, (count - 1) as nat),
        }
    }
}

/// Reads the rows of an int64 chunk one by one.
pub struct Int64ColumnChunkIterator<'a> {
    pub data: &'a [u8],
    pub pos: usize,
    pub remaining_items: u64,
    pub leader: i64,
    pub error: bool,
}

impl<'a> Int64ColumnChunkIterator<'a> {
    /// The rows that are left to read, or `None` when one of them cannot be
    /// decoded; no rows once an error was met.
    pub open spec fn rows_left(&self) -> Option<Seq<i64>> {
        if self.error {
            Some(seq![])
        } else {
            int64_rows(self.data@, self.pos as nat, self.remaining_items as nat, self.leader)
        }
    }

    /// Where in the data the rows that are left end.
    pub open spec fn rows_end(&self) -> Option<nat> {
        int64_rows_end(self.data@, self.pos as nat, self.remaining_items as nat)
    }

    /// Reads the next row: `None` when no rows are left or an error was met
    /// before; an error when the next offset cannot be decoded.
    pub fn next(&mut self) -> (r: Option<Result<i64, DeserializerError>>)
        ensures
            old(self).rows_left() matches Some(rows) && rows.len() > 0 ==> final(self).rows_end()
                == old(self).rows_end(),
            !final(self).error && final(self).remaining_items == 0 ==> final(self).rows_end() == Some(
                final(self).pos as nat,
            ),
            old(self).rows_left() matches Some(rows) ==> if rows.len() == 0 {
                r is None
            } else {
                r == Some(Ok::<i64, DeserializerError>(rows[0])) && final(self).rows_left() == Some(
                    rows.drop_first(),
                )
            },
            final(self).data == old(self).data,
            final(self).leader == old(self).leader,
            old(self).remaining_items == 0 || old(self).error ==> r is None && *final(self) == *old(
                self,
            ),
            old(self).remaining_items != 0 && !old(self).error ==> {
                &&& final(self).remaining_items == old(self).remaining_items - 1
                &&& match vle_decode_i64(suffix(old(self).data@, old(self).pos as int)) {
                    Some((d, n)) => {
                        &&& r == Some(Ok::<i64, DeserializerError>(d.wrapping_add(old(self).leader)))
                        &&& final(self).pos == old(self).pos + n
                        &&& !final(self).error
                    },
                    None => {
                        &&& r == Some(Err::<i64, DeserializerError>(DeserializerError::InvalidInt64))
                        &&& final(self).error
                        &&& final(self).pos == old(self).pos
                    },
                }
            },
    {
        if self.remaining_items != 0 && !self.error {
            self.remaining_items -= 1;
            match decode_i64_vle_at(self.data, self.pos) {
                Some((v, n)) => {
                    assert(self.data@.len() == self.data.len());
                    self.pos = self.pos + n;
                    Some(Ok(v.wrapping_add(self.leader)))
                },
                None => {
                    self.error = true;
                    Some(Err(DeserializerError::InvalidInt64))
                },
            }
        } else {
            None
        }
    }
}

/// Starts reading an int64 chunk's data of `rows` rows: reads the leading
/// smallest value.
pub fn parse_int64_chunk<'a>(rows: u64, data: &'a [u8]) -> (r: Result<
    Int64ColumnChunkIterator<'a>,
    DeserializerError,
>)
    ensures
        match vle_decode_i64(data@) {
            Some((leader, n)) => r matches Ok(it) && it.data == data && it.pos == n
                && it.remaining_items == rows && it.leader == leader && !it.error,
            None => r matches Err(e) && e == DeserializerError::InvalidInt64,
        },
{
    assert(suffix(data@, 0) =~= data@);
    match decode_i64_vle_at(data, 0) {
        Some((leader, n)) => Ok(Int64ColumnChunkIterator {
            data,
            pos: n,
            remaining_items: rows,
            leader,
            error: false,
        }),
        None => Err(DeserializerError::InvalidInt64),
    }
}


proof fn lemma_int64_rows_of_deltas(data: Seq<u8>, pos: nat, s: Seq<i64>, min: i64)
    requires
        pos <= data.len(),
        data.skip(pos as int) == int64_deltas(s, min),
        forall|i: int| 0 <= i < s.len() ==> min <= #[trigger] s[i],
    ensures
        int64_rows(data, pos, s.len(), min) == Some(s),
        int64_rows_end(data, pos, s.len()) == Some(data.len()),
    decreases s.len(),
{
    if s.len() > 0 {
        let f = |x: i64| vle_bytes((x - min) as nat);
        let m = s.map_values(f);
        assert(m.drop_first() =~= s.drop_first().map_values(f));
        assert(m.first() == f(s[0]));
        let e = f(s[0]);
        let rest = int64_deltas(s.drop_first(), min);
        assert(int64_deltas(s, min) == e + rest);
        let v = s[0].wrapping_sub(min);
        lemma_offset_bits(s[0], min);
        assert((v as u64) as nat == (s[0] - min) as nat);
        lemma_vle_i64_roundtrip(v, rest);
        assert(suffix(data, pos as int) == e + rest);
        assert(data.skip((pos + e.len()) as int) =~= rest) by {
            assert(data.skip((pos + e.len()) as int) =~= data.skip(pos as int).skip(e.len() as int));
            assert((e + rest).skip(e.len() as int) =~= rest);
        }
        assert forall|i: int| 0 <= i < s.drop_first().len() implies min <= #[trigger] s.drop_first()[i] by {
            assert(s.drop_first()[i] == s[i + 1]);
        }
        lemma_int64_rows_of_deltas(data, pos + e.len(), s.drop_first(), min);
        assert(v.wrapping_add(min) == s[0]);
        assert(seq![s[0]] + s.drop_first() =~= s);
    }
}

/// An int64 chunk reads back as the values it was built from: its chunk
/// header gives the data length and the number of rows, its data starts with
/// the smallest value and the rows that follow are the values, in order.
pub proof fn lemma_int64_chunk_roundtrip(nums: Seq<i64>)
    requires
        nums.len() <= u64::MAX,
        int64_payload(nums).len() <= u64::MAX,
    ensures
        ({
            let c = int64_chunk_bytes(nums);
            &&& c.len() >= CHUNK_HEADER_SIZE
            &&& spec_chunk_header(c.take(16)) == ChunkHeader {
                bytes: (c.len() - CHUNK_HEADER_SIZE) as u64,
                rows: nums.len() as u64,
            }
            &&& vle_decode_i64(c.skip(16)) matches Some((leader, k)) && leader == seq_min(nums)
                && int64_rows(c.skip(16), k, nums.len(), leader) == Some(nums)
        }),
{
    let c = int64_chunk_bytes(nums);
    let p = int64_payload(nums);
    let min = seq_min(nums);
    lemma_seq_min(nums);
    assert(c.take(16).take(8) =~= be_u64_bytes(p.len() as u64));
    assert(c.take(16).subrange(8, 16) =~= be_u64_bytes(nums.len() as u64));
    lemma_be_u64_roundtrip(p.len() as u64);
    lemma_be_u64_roundtrip(nums.len() as u64);
    assert(c.skip(16) =~= p);
    let d = int64_deltas(nums, min);
    lemma_vle_i64_roundtrip(min, d);
    let h = vle_bytes((min as u64) as nat);
    assert(p.skip(h.len() as int) =~= d);
    lemma_int64_rows_of_deltas(p, h.len(), nums, min);
}


/// The zstd compression level of string chunks.
pub const ZSTD_COMPRESSION_LEVEL: i32 = 3;

/// The zstd frame that `zstd::encode_all` makes of `data` at `level`, or
/// `None` when it fails.
pub uninterp spec fn zstd_encoded(data: Seq<u8>, level: i32) -> Option<Seq<u8>>;

/// The bytes that `zstd::decode_all` gets out of `frame`, or `None` when it
/// fails.
pub uninterp spec fn zstd_decoded(frame: Seq<u8>) -> Option<Seq<u8>>;

/// Compresses `data` with `zstd::encode_all` at `level`. The contract ties the
/// outcome to `zstd_encoded`; it does not say when compression fails.
#[verifier::external_body]
fn zstd_encode_all(data: &[u8], level: i32) -> (r: Result<Vec<u8>, std::io::Error>)
    ensures
        r is Ok <==> zstd_encoded(data@, level) is Some,
        r matches Ok(c) ==> zstd_encoded(data@, level) == Some(c@),
{
    zstd::encode_all(data, level)
}

/// Decompresses `frame` with `zstd::decode_all`. The contract ties the outcome
/// to `zstd_decoded` and states that zstd is lossless: a frame that
/// `zstd::encode_all` made decompresses to the data it was made of.
#[verifier::external_body]
fn zstd_decode_all(frame: &[u8]) -> (r: Result<Vec<u8>, std::io::Error>)
    ensures
        r is Ok <==> zstd_decoded(frame@) is Some,
        r matches Ok(d) ==> zstd_decoded(frame@) == Some(d@),
        r is Err ==> forall|x: Seq<u8>, level: i32| #[trigger] zstd_encoded(x, level) != Some(frame@),
        r matches Ok(d) ==> forall|x: Seq<u8>, level: i32|
            #[trigger] zstd_encoded(x, level) == Some(frame@) ==> d@ == x,
{
    zstd::decode_all(frame)
}

/// Turns bytes into a `String` with `String::from_utf8`: it succeeds exactly
/// on valid UTF-8, and the string holds the same bytes.
#[verifier::external_body]
fn string_from_utf8(bytes: Vec<u8>) -> (r: Result<String, std::string::FromUtf8Error>)
    ensures
        r is Ok <==> valid_utf8(bytes@),
        r matches Ok(s) ==> encode_utf8(s@) == bytes@,
{
    String::from_utf8(bytes)
}

/// One string row in the uncompressed data of a string chunk: the byte
/// length (as written, in a `u32`) and the UTF-8 bytes.
pub open spec fn str_row_bytes(s: Seq<char>) -> Seq<u8> {
    be_u32_bytes(encode_utf8(s).len() as u32) + encode_utf8(s)
}

/// The uncompressed data of a string chunk holding `strs`.
pub open spec fn str_payload(strs: Seq<Seq<char>>) -> Seq<u8> {
    strs.map_values(|s: Seq<char>| str_row_bytes(s)).flatten()
}

/// The character sequences of `strs`.
pub open spec fn string_views(strs: Seq<String>) -> Seq<Seq<char>> {
    strs.map_values(|s: String| s@)
}

/// A whole string chunk made of the compressed data `frame`, chunk header
/// included.
pub open spec fn str_chunk_bytes(rows: nat, frame: Seq<u8>) -> Seq<u8> {
    be_u64_bytes(frame.len() as u64) + be_u64_bytes(rows as u64) + frame
}

/// Builds a string chunk (chunk header included) from `strs`; fails only when
/// compression fails.
pub fn create_str_chunk(strs: &[String]) -> (r: Result<Vec<u8>, std::io::Error>)
    ensures
        zstd_encoded(str_payload(string_views(strs@)), ZSTD_COMPRESSION_LEVEL) matches Some(frame)
            ==> r matches Ok(c) && c@ == str_chunk_bytes(strs@.len(), frame),
        zstd_encoded(str_payload(string_views(strs@)), ZSTD_COMPRESSION_LEVEL) is None
            ==> r is Err,
{
    let mut payload: Vec<u8> = Vec::new();
    let mut i: usize = 0;
    while i < strs.len()
        invariant
            i <= strs@.len(),
            payload@ == str_payload(string_views(strs@.take(i as int))),
        decreases strs@.len() - i,
    {
        let bytes = strs[i].as_str().as_bytes();
        push_u32_be(&mut payload, bytes.len() as u32);
        append_bytes(&mut payload, bytes);
        proof {
            let f = |s: Seq<char>| str_row_bytes(s);
            let v = string_views(strs@.take(i as int));
            assert(string_views(strs@.take(i + 1)) =~= v.push(strs@[i as int]@));
            assert(v.push(strs@[i as int]@).map_values(f) =~= v.map_values(f).push(f(strs@[i as int]@)));
            v.map_values(f).lemma_flatten_push(f(strs@[i as int]@));
        }
        i += 1;
    }
    assert(strs@.take(strs@.len() as int) =~= strs@);
    let frame = zstd_encode_all(payload.as_slice(), ZSTD_COMPRESSION_LEVEL)?;
    let mut result: Vec<u8> = Vec::new();
    push_u64_be(&mut result, frame.len() as u64);
    push_u64_be(&mut result, strs.len() as u64);
    append_bytes(&mut result, frame.as_slice());
    assert(result@ =~= str_chunk_bytes(strs@.len(), frame@));
    Ok(result)
}

/// The UTF-8 bytes of the row that starts at index `pos` of the uncompressed
/// data `dec`, and the index after it; `None` when `dec` ends first.
pub open spec fn str_row_at(dec: Seq<u8>, pos: nat) -> Option<(Seq<u8>, nat)> {
    if pos + 4 > dec.len() {
        None
    } else {
        let len = be_u32_value(dec.subrange(pos as int, (pos + 4) as int));
        if pos + 4 + len > dec.len() {
            None
        } else {
            Some((dec.subrange((pos + 4) as int, (pos + 4 + len) as int), (pos + 4 + len) as nat))
        }
    }
}

/// The `count` rows that start at index `pos` of the uncompressed data `dec`,
/// or `None` when one of them is cut short or is not UTF-8.
pub open spec fn str_rows(dec: Seq<u8>, pos: nat, count: nat) -> Option<Seq<Seq<char>>>
    decreases count,
{
    if count == 0 {
        Some(seq![])
    } else {
        match str_row_at(dec, pos) {
            None => None,
            Some((b, next)) => if !valid_utf8(b) {
                None
            } else {
                match str_rows(dec, next, (count - 1) as nat) {
                    None => None,
                    Some(rest) => Some(seq![decode_utf8(b)] + rest),
                }
            },
        }
    }
}

/// Reads the rows of a string chunk one by one, from its uncompressed data.
pub struct StringColumnChunkIterator {
    pub decoded: Vec<u8>,
    pub pos: usize,
    pub remaining_items: u64,
    pub error: bool,
    /// Why the chunk's data could not be decompressed, until a row is asked
    /// for.
    pub failure: Option<std::io::Error>,
}

impl StringColumnChunkIterator {
    /// The rows that are left to read, or `None` when one of them is cut
    /// short or is not UTF-8; no rows once an error was met.
    pub open spec fn rows_left(&self) -> Option<Seq<Seq<char>>> {
        if self.error || self.remaining_items == 0 {
            Some(seq![])
        } else if self.failure is Some {
            None
        } else {
            str_rows(self.decoded@, self.pos as nat, self.remaining_items as nat)
        }
    }

    /// Reads the next row: `None` when no rows are left or an error was met
    /// before; the decompression error when the data could not be
    /// decompressed; `TooShort` when the data ends inside the row;
    /// `InvalidString` when its bytes are not UTF-8.
    pub fn next(&mut self) -> (r: Option<Result<String, DeserializerError>>)
        ensures
            old(self).rows_left() matches Some(rows) ==> if rows.len() == 0 {
                r is None
            } else {
                r matches Some(Ok(x)) && x@ == rows[0] && final(self).rows_left() == Some(
                    rows.drop_first(),
                )
            },
            final(self).decoded == old(self).decoded,
            old(self).remaining_items == 0 || old(self).error ==> r is None && *final(self) == *old(
                self,
            ),
            old(self).remaining_items != 0 && !old(self).error && old(self).failure is Some ==> {
                &&& r matches Some(Err(e)) && e is IOError
                &&& final(self).error
                &&& final(self).remaining_items == old(self).remaining_items
            },
            old(self).failure is None ==> final(self).failure is None,
            old(self).remaining_items != 0 && !old(self).error && old(self).failure is None ==> match str_row_at(
                old(self).decoded@,
                old(self).pos as nat,
            ) {
                None => {
                    &&& r matches Some(Err(e)) && e == DeserializerError::TooShort
                    &&& final(self).error
                },
                Some((b, next)) => {
                    &&& final(self).remaining_items == old(self).remaining_items - 1
                    &&& final(self).pos == next
                    &&& valid_utf8(b) ==> (r matches Some(Ok(s)) && s@ == decode_utf8(b)
                        && !final(self).error)
                    &&& !valid_utf8(b) ==> (r matches Some(Err(e)) && e is InvalidString
                        && final(self).error)
                },
            },
    {
        if self.remaining_items != 0 && !self.error {
            if let Some(e) = self.failure.take() {
                self.error = true;
                return Some(Err(DeserializerError::IOError(e)));
            }
            let total = self.decoded.len();
            if self.pos > total || total - self.pos < 4 {
                self.error = true;
                return Some(Err(DeserializerError::TooShort));
            }
            let len = read_u32_be(self.decoded.as_slice(), self.pos);
            let start = self.pos + 4;
            if total - start < len as usize {
                self.error = true;
                return Some(Err(DeserializerError::TooShort));
            }
            let end = start + len as usize;
            let mut buf: Vec<u8> = Vec::new();
            let mut k = start;
            while k < end
                invariant
                    start <= k <= end,
                    end <= total,
                    total == self.decoded@.len(),
                    buf@ == self.decoded@.subrange(start as int, k as int),
                decreases end - k,
            {
                buf.push(self.decoded[k]);
                assert(self.decoded@.subrange(start as int, k + 1) =~= buf@);
                k += 1;
            }
            self.remaining_items -= 1;
            self.pos = end;
            proof {
                let ghost dec = self.decoded@;
                let ghost b = dec.subrange(start as int, end as int);
                assert(buf@ == b);
                if valid_utf8(b) {
                    encode_utf8_decode_utf8(decode_utf8(b));
                }
            }
            let ghost bytes = buf@;
            match string_from_utf8(buf) {
                Ok(s) => {
                    proof {
                        encode_utf8_decode_utf8(s@);
                    }
                    Some(Ok(s))
                },
                Err(e) => {
                    self.error = true;
                    Some(Err(DeserializerError::InvalidString(e)))
                },
            }
        } else {
            None
        }
    }
}

/// Starts reading a string chunk's data of `rows` rows: decompresses it (a
/// chunk of no rows is not looked at). A failure to decompress is kept and
/// given when the first row is asked for, so this never fails.
pub fn parse_str_chunk(rows: u64, data: &[u8]) -> (r: Result<StringColumnChunkIterator, DeserializerError>)
    ensures
        r matches Ok(it) && it.pos == 0 && it.remaining_items == rows && !it.error,
        rows == 0 ==> (r matches Ok(it) && it.failure is None),
        rows != 0 ==> match zstd_decoded(data@) {
            Some(d) => r matches Ok(it) && it.decoded@ == d && it.failure is None,
            None => r matches Ok(it) && it.failure is Some,
        },
        rows != 0 ==> forall|x: Seq<u8>, level: i32|
            #[trigger] zstd_encoded(x, level) == Some(data@) ==> (r matches Ok(it) && it.failure is None
                && it.decoded@ == x),
{
    if rows == 0 {
        return Ok(StringColumnChunkIterator {
            decoded: Vec::new(),
            pos: 0,
            remaining_items: 0,
            error: false,
            failure: None,
        });
    }
    match zstd_decode_all(data) {
        Ok(decoded) => Ok(StringColumnChunkIterator {
            decoded,
            pos: 0,
            remaining_items: rows,
            error: false,
            failure: None,
        }),
        Err(e) => Ok(StringColumnChunkIterator {
            decoded: Vec::new(),
            pos: 0,
            remaining_items: rows,
            error: false,
            failure: Some(e),
        }),
    }
}


proof fn lemma_str_rows_of_payload(dec: Seq<u8>, pos: nat, strs: Seq<Seq<char>>)
    requires
        pos + str_payload(strs).len() <= dec.len(),
        dec.subrange(pos as int, pos + str_payload(strs).len() as int) == str_payload(strs),
        forall|i: int| 0 <= i < strs.len() ==> encode_utf8(#[trigger] strs[i]).len() <= u32::MAX,
    ensures
        str_rows(dec, pos, strs.len()) == Some(strs),
    decreases strs.len(),
{
    if strs.len() > 0 {
        let f = |s: Seq<char>| str_row_bytes(s);
        let m = strs.map_values(f);
        assert(m.drop_first() =~= strs.drop_first().map_values(f));
        let s0 = strs[0];
        let enc = encode_utf8(s0);
        let row = f(s0);
        let rest = str_payload(strs.drop_first());
        assert(str_payload(strs) == row + rest);
        let pi = pos as int;
        let l = enc.len() as u32;
        let li = l as int;
        assert(l as int == enc.len());
        let p = str_payload(strs);
        assert(dec.subrange(pi, pi + 4) =~= be_u32_bytes(l)) by {
            assert(dec.subrange(pi, pi + 4) =~= p.subrange(0, 4));
        }
        lemma_be_u32_roundtrip(l);
        assert(dec.subrange(pi + 4, pi + 4 + li) =~= enc) by {
            assert(dec.subrange(pi + 4, pi + 4 + li) =~= p.subrange(4, 4 + li));
        }
        encode_utf8_valid_utf8(s0);
        encode_utf8_decode_utf8(s0);
        let next = (pi + 4 + li) as nat;
        let ni = next as int;
        assert(dec.subrange(ni, ni + rest.len()) =~= rest) by {
            assert(dec.subrange(ni, ni + rest.len()) =~= p.subrange(row.len() as int, p.len() as int));
        }
        assert forall|i: int| 0 <= i < strs.drop_first().len() implies encode_utf8(
            #[trigger] strs.drop_first()[i],
        ).len() <= u32::MAX by {
            assert(strs.drop_first()[i] == strs[i + 1]);
        }
        lemma_str_rows_of_payload(dec, next, strs.drop_first());
        assert(seq![s0] + strs.drop_first() =~= strs);
    }
}

/// The uncompressed data of a string chunk reads back as the strings it was
/// made of, as long as each string's UTF-8 length fits in the `u32` that
/// records it.
pub proof fn lemma_str_payload_roundtrip(strs: Seq<Seq<char>>)
    requires
        forall|i: int| 0 <= i < strs.len() ==> encode_utf8(#[trigger] strs[i]).len() <= u32::MAX,
    ensures
        str_rows(str_payload(strs), 0, strs.len()) == Some(strs),
{
    let p = str_payload(strs);
    assert(p.subrange(0, p.len() as int) =~= p);
    lemma_str_rows_of_payload(p, 0, strs);
}

/// The iterator that `parse_int64_chunk` starts on the data of a chunk built
/// from `nums` has exactly `nums` as rows left, and they end where the data
/// ends: successive calls of `next` give the values in order and then
/// `None`, with the whole data read.
pub proof fn lemma_int64_chunk_rows<'a>(nums: Seq<i64>, it: Int64ColumnChunkIterator<'a>)
    requires
        nums.len() <= u64::MAX,
        int64_payload(nums).len() <= u64::MAX,
        it.data@ == int64_chunk_bytes(nums).skip(16),
        vle_decode_i64(it.data@) matches Some((leader, n)) && it.pos == n && it.leader == leader,
        it.remaining_items == nums.len(),
        !it.error,
    ensures
        it.rows_left() == Some(nums),
        it.rows_end() == Some(it.data@.len()),
{
    lemma_int64_chunk_roundtrip(nums);
    let c = int64_chunk_bytes(nums);
    let p = int64_payload(nums);
    let min = seq_min(nums);
    lemma_seq_min(nums);
    assert(c.skip(16) =~= p);
    let d = int64_deltas(nums, min);
    lemma_vle_i64_roundtrip(min, d);
    let h = vle_bytes((min as u64) as nat);
    assert(p.skip(h.len() as int) =~= d);
    lemma_int64_rows_of_deltas(p, h.len(), nums, min);
}

/// The iterator that `parse_str_chunk` starts on a frame that decompresses
/// to the data of `strs` has exactly `strs` as rows left, so successive calls
/// of `next` give the strings in order and then `None`.
pub proof fn lemma_str_chunk_rows(strs: Seq<Seq<char>>, it: StringColumnChunkIterator)
    requires
        forall|i: int| 0 <= i < strs.len() ==> encode_utf8(#[trigger] strs[i]).len() <= u32::MAX,
        strs.len() > 0 ==> it.decoded@ == str_payload(strs),
        it.pos == 0,
        it.remaining_items == strs.len(),
        !it.error,
        it.failure is None,
    ensures
        it.rows_left() == Some(strs),
{
    if strs.len() > 0 {
        lemma_str_payload_roundtrip(strs);
    } else {
        assert(strs =~= seq![]);
    }
}

} // verus!
