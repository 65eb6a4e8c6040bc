//! Variable-length quantity (VLE) coding of 64-bit integers.
//!
//! A value is written as its base-128 digits, most significant first, without
//! leading zero digits (zero itself is the single byte `0`). Every byte but the
//! last has its high bit set.
use vstd::prelude::*;

verus! {

/// Maximal number of bytes that one encoded `u64` takes.
pub const U64_MAX_BYTES: u32 = 10;

/// The base-128 digits of `p` (most significant first, no leading zeros),
/// each with the continuation bit set. Empty for zero.
pub open spec fn vle_cont(p: nat) -> Seq<u8>
    decreases p,
{
    if p == 0 {
        seq![]
    } else {
        vle_cont(p / 128) + seq![(p % 128 + 128) as u8]
    }
}

/// The encoding of `v`: the leading digits with continuation bits, then the
/// last digit with the high bit clear.
pub open spec fn vle_bytes(v: nat) -> Seq<u8> {
    vle_cont(v / 128) + seq![(v % 128) as u8]
}

/// The value accumulated from a run of bytes: each byte contributes its low
/// seven bits, the accumulator is shifted by seven bits per byte and keeps
/// only its low 64 bits.
pub open spec fn vle_acc(s: Seq<u8>) -> u64
    decreases s.len(),
{
    if s.len() == 0 {
        0
    } else {
        ((vle_acc(s.drop_last()) * 128 + s.last() % 128) % 0x1_0000_0000_0000_0000int) as u64
    }
}

/// Length of the encoding that starts at the beginning of `s`, scanning from
/// index `i`: one past the first byte with the high bit clear, provided it is
/// among the first ten bytes.
pub open spec fn vle_end_from(s: Seq<u8>, i: nat) -> Option<nat>
    decreases 10 - i,
{
    if i >= 10 || i >= s.len() {
        None
    } else if s[i as int] < 128 {
        Some(i + 1)
    } else {
        vle_end_from(s, i + 1)
    }
}

/// Decoding of the value at the start of `s`: the value and the number of
/// bytes it takes, or `None` when no terminating byte occurs among the first
/// ten bytes of `s`.
pub open spec fn vle_decode(s: Seq<u8>) -> Option<(u64, nat)> {
    match vle_end_from(s, 0) {
        Some(n) => Some((vle_acc(s.take(n as int)), n)),
        None => None,
    }
}

/// Decoding of a signed value: the unsigned value reinterpreted as `i64`.
pub open spec fn vle_decode_i64(s: Seq<u8>) -> Option<(i64, nat)> {
    match vle_decode(s) {
        Some((v, n)) => Some((v as i64, n)),
        None => None,
    }
}

/// The value formed by the seven-bit groups of `val` above group `k` when the
/// 70 bits are split into ten groups, the most significant first.
spec fn top_groups(val: u64, k: int) -> nat {
    if k <= 0 {
        0
    } else {
        (val >> ((7 * (10 - k)) as u64)) as nat
    }
}

proof fn lemma_group_step(val: u64, oct: u32)
    requires
        oct < 10,
    ensures
        ({
            let g = ((val.wrapping_shr((7 * (10 - 1 - oct)) as u32)) & 0x7f) as u8;
            &&& g < 128
            &&& top_groups(val, oct + 1) == top_groups(val, oct as int) * 128 + g
        }),
{
    let s: u32 = (7 * (10 - 1 - oct)) as u32;
    let s64: u64 = s as u64;
    assert(val.wrapping_shr(s) == val >> s64);
    let x = val >> s64;
    assert(x & 0x7f < 128) by (bit_vector);
    assert(((x & 0x7f) as u8) as nat == (x & 0x7f) as nat) by (bit_vector)
        requires
            x & 0x7f < 128,
    ;
    if oct == 0 {
        assert(val >> 63u64 == (val >> 63u64) & 0x7f) by (bit_vector);
    } else {
        assert(s64 <= 56);
        assert((val >> s64) as int == ((val >> (s64 + 7)) as int) * 128 + ((val >> s64) & 0x7f) as int)
            by (bit_vector)
            requires
                s64 <= 56,
        ;
        assert((7 * (10 - oct as int)) as u64 == s64 + 7);
    }
}

/// Encodes `val` in the variable-length format.
pub fn encode_vle(val: u64) -> (result: Vec<u8>)
    ensures
        result@ == vle_bytes(val as nat),
{
    let mut result = Vec::new();
    let mut found_nonzero = false;

    if val == 0 {
        let zero = vec![0u8];
        assert(vle_cont(0) == Seq::<u8>::empty());
        assert(zero@ =~= vle_bytes(0));
        return zero;
    }
    let mut oct: u32 = 0;
    while oct < U64_MAX_BYTES
        invariant
            oct <= 10,
            val != 0,
            oct <= 9 ==> result@ == vle_cont(top_groups(val, oct as int)),
            oct <= 9 ==> found_nonzero == (top_groups(val, oct as int) != 0),
            oct == 10 ==> result@ == vle_bytes(val as nat),
        decreases 10 - oct,
    {
        let mut cval: u8 = ((val.wrapping_shr(7 * (U64_MAX_BYTES - 1 - oct))) & 0x7f) as u8;
        proof {
            lemma_group_step(val, oct);
        }
        let ghost p = top_groups(val, oct as int);
        let ghost p2 = top_groups(val, oct + 1);
        assert(p2 / 128 == p && p2 % 128 == cval as nat);
        if cval != 0 || found_nonzero {
            found_nonzero = true;
            if oct != 9 {
                assert(cval | 0x80 == cval + 128) by (bit_vector)
                    requires
                        cval < 128,
                ;
                cval |= 0b1000_0000;
            }
            result.push(cval);
        }
        proof {
            if oct == 9 {
                assert(top_groups(val, 10) == val as nat) by {
                    assert(val >> 0u64 == val) by (bit_vector);
                }
                assert(result@ =~= vle_bytes(val as nat));
            } else if p2 != 0 {
                assert(result@ =~= vle_cont(p2));
            } else {
                assert(p == 0);
            }
        }
        oct += 1;
    }
    result
}

proof fn lemma_acc_take_step(s: Seq<u8>, i: int)
    requires
        0 <= i < s.len(),
    ensures
        vle_acc(s.take(i + 1)) == ((vle_acc(s.take(i)) * 128 + s[i] % 128) % 0x1_0000_0000_0000_0000int) as u64,
{
    assert(s.take(i + 1).drop_last() =~= s.take(i));
}

/// The bytes of `s` from index `start` on; empty when `start` is past the end.
pub open spec fn suffix(s: Seq<u8>, start: int) -> Seq<u8> {
    if start <= s.len() {
        s.skip(start)
    } else {
        seq![]
    }
}

/// Decodes the value that starts at index `start` of `bytes`; gives the value
/// and the number of bytes it takes, or `None` when the input ends, or ten
/// bytes pass, before a byte with the high bit clear.
pub fn decode_vle_at(bytes: &[u8], start: usize) -> (r: Option<(u64, usize)>)
    ensures
        r is None <==> vle_decode(suffix(bytes@, start as int)) is None,
        r matches Some((v, n)) ==> vle_decode(suffix(bytes@, start as int)) == Some((v, n as nat)),
        r matches Some((v, n)) ==> 1 <= n <= 10 && start + n <= bytes@.len(),
{
    let ghost t = suffix(bytes@, start as int);
    if start > bytes.len() {
        return None;
    }
    let avail = bytes.len() - start;
    let mut result: u64 = 0;
    let mut i: usize = 0;
    while i < 10
        invariant
            i <= 10,
            i <= avail,
            avail == t.len(),
            start + avail == bytes@.len(),
            bytes@.len() == bytes.len(),
            t == bytes@.skip(start as int),
            result == vle_acc(t.take(i as int)),
            vle_end_from(t, 0) == vle_end_from(t, i as nat),
        decreases 10 - i,
    {
        if i >= avail {
            return None;
        }
        assert(start + i < bytes@.len());
        let b = bytes[start + i];
        assert(b == t[i as int]);
        proof {
            lemma_acc_take_step(t, i as int);
            assert((result << 7u64) | ((b & 0x7f) as u64) == ((result * 128 + b % 128) % 0x1_0000_0000_0000_0000int) as u64)
                by (bit_vector);
            assert((b & 0x80 == 0) <==> b < 128) by (bit_vector);
        }
        result = (result << 7) | ((b & 0x7f) as u64);
        if b & 0x80 == 0 {
            return Some((result, i + 1));
        }
        i += 1;
    }
    None
}

/// Decodes the value at the start of `bytes`; gives the value and the number
/// of bytes it takes, or `None` when the input ends, or ten bytes pass, before
/// a byte with the high bit clear.
pub fn decode_vle(bytes: &[u8]) -> (r: Option<(u64, usize)>)
    ensures
        r is None <==> vle_decode(bytes@) is None,
        r matches Some((v, n)) ==> vle_decode(bytes@) == Some((v, n as nat)),
{
    assert(suffix(bytes@, 0) =~= bytes@);
    decode_vle_at(bytes, 0)
}

/// Decodes the value at the start of `bytes`, or `None` (see [`decode_vle`]).
pub fn decode_vle_vec(bytes: &[u8]) -> (r: Option<u64>)
    ensures
        r is None <==> vle_decode(bytes@) is None,
        r matches Some(v) ==> vle_decode(bytes@) matches Some((w, _)) && w == v,
{
    match decode_vle(bytes) {
        Some((v, _)) => Some(v),
        None => None,
    }
}

/// Encodes a signed value: its two's complement bits taken as a `u64`.
pub fn encode_i64_vle(val: i64) -> (result: Vec<u8>)
    ensures
        result@ == vle_bytes((val as u64) as nat),
{
    encode_vle(val as u64)
}

/// Decodes the signed value that starts at index `start` of `bytes`, with the
/// number of bytes it takes.
pub fn decode_i64_vle_at(bytes: &[u8], start: usize) -> (r: Option<(i64, usize)>)
    ensures
        r is None <==> vle_decode_i64(suffix(bytes@, start as int)) is None,
        r matches Some((v, n)) ==> vle_decode_i64(suffix(bytes@, start as int)) == Some((v, n as nat)),
        r matches Some((v, n)) ==> 1 <= n <= 10 && start + n <= bytes@.len(),
{
    match decode_vle_at(bytes, start) {
        Some((v, n)) => Some((v as i64, n)),
        None => None,
    }
}

/// Decodes a signed value written by [`encode_i64_vle`], with the number of
/// bytes it takes.
pub fn decode_i64_vle(bytes: &[u8]) -> (r: Option<(i64, usize)>)
    ensures
        r is None <==> vle_decode_i64(bytes@) is None,
        r matches Some((v, n)) ==> vle_decode_i64(bytes@) == Some((v, n as nat)),
{
    match decode_vle(bytes) {
        Some((v, n)) => Some((v as i64, n)),
        None => None,
    }
}


/// `128` raised to the power `k`.
pub open spec fn pow128(k: nat) -> nat
    decreases k,
{
    if k == 0 {
        1
    } else {
        128 * pow128((k - 1) as nat)
    }
}

proof fn lemma_cont_props(p: nat, k: nat)
    requires
        p < pow128(k),
    ensures
        vle_cont(p).len() <= k,
        forall|j: int| 0 <= j < vle_cont(p).len() ==> vle_cont(p)[j] >= 128,
        p < 0x1_0000_0000_0000_0000int ==> vle_acc(vle_cont(p)) == p,
    decreases p,
{
    if p != 0 {
        assert(k > 0);
        assert(p / 128 < pow128((k - 1) as nat));
        lemma_cont_props(p / 128, (k - 1) as nat);
        let c = vle_cont(p);
        assert(c.drop_last() =~= vle_cont(p / 128));
        assert(c.last() == (p % 128 + 128) as u8);
    }
}

proof fn lemma_end_scan(s: Seq<u8>, n: nat, i: nat)
    requires
        1 <= n <= 10,
        n <= s.len(),
        i < n,
        forall|j: int| i <= j < n - 1 ==> s[j] >= 128,
        s[n - 1] < 128,
    ensures
        vle_end_from(s, i) == Some(n),
    decreases n - i,
{
    if i < n - 1 {
        lemma_end_scan(s, n, i + 1);
    }
}

/// The encoding of any `u64` is one to ten bytes long; every byte but the last
/// has the high bit set and the last has it clear.
pub proof fn lemma_vle_bytes_shape(v: u64)
    ensures
        1 <= vle_bytes(v as nat).len() <= U64_MAX_BYTES,
        forall|j: int|
            0 <= j < vle_bytes(v as nat).len() - 1 ==> #[trigger] vle_bytes(v as nat)[j] >= 128,
        vle_bytes(v as nat).last() < 128,
        vle_acc(vle_bytes(v as nat)) == v,
{
    assert(pow128(9) == 0x8000_0000_0000_0000int) by {
        reveal_with_fuel(pow128, 10);
    }
    lemma_cont_props(v as nat / 128, 9);
    let e = vle_bytes(v as nat);
    assert(e.drop_last() =~= vle_cont(v as nat / 128));
}

/// Decoding gives back what encoding wrote, whatever bytes follow it, and
/// reports the length of the encoding.
pub proof fn lemma_vle_roundtrip(v: u64, rest: Seq<u8>)
    ensures
        vle_decode(vle_bytes(v as nat) + rest) == Some((v, vle_bytes(v as nat).len())),
{
    lemma_vle_bytes_shape(v);
    let e = vle_bytes(v as nat);
    let s = e + rest;
    lemma_end_scan(s, e.len(), 0);
    assert(s.take(e.len() as int) =~= e);
}

/// Decoding a signed value gives back what [`encode_i64_vle`] wrote, whatever
/// bytes follow it.
pub proof fn lemma_vle_i64_roundtrip(v: i64, rest: Seq<u8>)
    ensures
        vle_decode_i64(vle_bytes((v as u64) as nat) + rest) == Some((v, vle_bytes((v as u64) as nat).len())),
{
    lemma_vle_roundtrip(v as u64, rest);
    assert((v as u64) as i64 == v) by (bit_vector);
}

} // verus!
