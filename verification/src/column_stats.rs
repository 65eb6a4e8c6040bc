//! Statistics over decoded columns: the sum, count and average of an int64
//! column, and the number of occurrences of each ASCII character in a string
//! column.
use vstd::prelude::*;
use vstd::seq_lib::lemma_flatten_concat;

verus! {

/// Number of occurrences in `s` of the character with code `code`.
pub open spec fn occurrences(s: Seq<char>, code: u32) -> nat
    decreases s.len(),
{
    if s.len() == 0 {
        0
    } else {
        occurrences(s.drop_last(), code) + if s.last() as u32 == code {
            1nat
        } else {
            0nat
        }
    }
}

proof fn lemma_occurrences_one(c: char, code: u32)
    ensures
        occurrences(seq![c], code) == if c as u32 == code {
            1nat
        } else {
            0nat
        },
{
    assert(occurrences(Seq::<char>::empty(), code) == 0);
    assert(seq![c].drop_last() =~= Seq::<char>::empty());
    assert(seq![c].last() == c);
}

/// Every character, control characters and spaces included, is counted once
/// under its own code and under no other: one space under 32, one tab
/// under 9, one `a` under 97.
pub proof fn lemma_occurrences_single(c: char, code: u32)
    ensures
        occurrences(seq![c], code) == if c as u32 == code {
            1nat
        } else {
            0nat
        },
        occurrences(seq![' '], 32) == 1,
        occurrences(seq!['\t'], 9) == 1,
        occurrences(seq!['a'], 97) == 1,
        occurrences(seq!['\0'], 0) == 1,
        occurrences(seq!['\x7f'], 127) == 1,
{
    lemma_occurrences_one(c, code);
    lemma_occurrences_one(' ', 32);
    lemma_occurrences_one('\t', 9);
    lemma_occurrences_one('a', 97);
    lemma_occurrences_one('\0', 0);
    lemma_occurrences_one('\x7f', 127);
    assert(' ' as u32 == 32);
    assert('\t' as u32 == 9);
    assert('a' as u32 == 97);
    assert('\0' as u32 == 0);
    assert('\x7f' as u32 == 127);
}

/// The occurrences of a code are the characters of that code, whatever the
/// code: the length of the subsequence of the characters whose code it is.
pub proof fn lemma_occurrences_filter(s: Seq<char>, code: u32)
    ensures
        occurrences(s, code) == s.filter(|c: char| c as u32 == code).len(),
    decreases s.len(),
{
    reveal_with_fuel(Seq::<char>::filter, 1);
    if s.len() > 0 {
        lemma_occurrences_filter(s.drop_last(), code);
    }
}

/// Counting the characters of two texts one after the other counts the
/// characters of each.
pub proof fn lemma_occurrences_concat(a: Seq<char>, b: Seq<char>, code: u32)
    ensures
        occurrences(a + b, code) == occurrences(a, code) + occurrences(b, code),
        occurrences(b, code) <= b.len(),
    decreases b.len(),
{
    if b.len() > 0 {
        assert((a + b).drop_last() =~= a + b.drop_last());
        lemma_occurrences_concat(a, b.drop_last(), code);
    } else {
        assert(a + b =~= a);
    }
}

proof fn lemma_flatten_prefix_len<A>(x: Seq<Seq<A>>, i: int)
    requires
        0 <= i < x.len(),
    ensures
        x.take(i).flatten().len() + x[i].len() <= x.flatten().len(),
        x.take(i + 1).flatten() == x.take(i).flatten() + x[i],
{
    assert(x =~= x.take(i) + (seq![x[i]] + x.skip(i + 1)));
    lemma_flatten_concat(x.take(i), seq![x[i]] + x.skip(i + 1));
    lemma_flatten_concat(seq![x[i]], x.skip(i + 1));
    seq![x[i]].lemma_flatten_singleton();
    assert(x.take(i + 1) =~= x.take(i).push(x[i]));
    x.take(i).lemma_flatten_push(x[i]);
}

/// All characters of a string column, chunk by chunk and row by row.
pub open spec fn column_chars(chunks: Seq<Seq<Seq<char>>>) -> Seq<char> {
    chunks.map_values(|c: Seq<Seq<char>>| c.flatten()).flatten()
}

/// The character sequences of the rows of a string column.
pub open spec fn string_chunk_views(chunks: Seq<Vec<String>>) -> Seq<Seq<Seq<char>>> {
    chunks.map_values(|c: Vec<String>| c@.map_values(|s: String| s@))
}

fn count_chars_into(counts: &mut Vec<u64>, s: &str)
    requires
        old(counts)@.len() == 128,
        forall|k: int| 0 <= k < 128 ==> old(counts)@[k] + occurrences(s@, k as u32) <= u64::MAX,
    ensures
        final(counts)@.len() == 128,
        forall|k: int|
            0 <= k < 128 ==> final(counts)@[k] == old(counts)@[k] + occurrences(s@, k as u32),
{
    broadcast use vstd::string::axiom_spec_iter;

    let ghost start = counts@;
    for c in it: s.chars()
        invariant
            it.seq() == s@,
            counts@.len() == 128,
            forall|k: int| 0 <= k < 128 ==> start[k] + occurrences(s@, k as u32) <= u64::MAX,
            forall|k: int|
                0 <= k < 128 ==> counts@[k] == start[k] + occurrences(
                    it.seq().take(it.index() as int),
                    k as u32,
                ),
    {
        let ghost i = it.index();
        assert(c == s@[i as int]);
        assert(s@.take(i + 1).drop_last() =~= s@.take(i as int));
        let code = c as u32;
        if code < 128 {
            let k = code as usize;
            proof {
                assert(s@.take(i + 1) + s@.skip(i + 1) =~= s@);
                lemma_occurrences_concat(s@.take(i + 1), s@.skip(i + 1), code);
            }
            let v = counts[k];
            counts.set(k, v + 1);
        }
    }
    assert(s@.take(s@.len() as int) =~= s@);
}

/// Counts the occurrences of each ASCII character (codes 0 to 127) in the
/// strings of a column; entry `k` of the result is the count of code `k`.
pub fn count_ascii_chars(chunks: &[Vec<String>]) -> (counts: Vec<u64>)
    requires
        column_chars(string_chunk_views(chunks@)).len() <= u64::MAX,
    ensures
        counts@.len() == 128,
        forall|k: int|
            0 <= k < 128 ==> counts@[k] == occurrences(
                column_chars(string_chunk_views(chunks@)),
                k as u32,
            ),
        forall|k: int|
            0 <= k < 128 ==> counts@[k] == column_chars(string_chunk_views(chunks@)).filter(
                |c: char| c as u32 == k as u32,
            ).len(),
{
    let ghost all = string_chunk_views(chunks@);
    let ghost per_chunk = all.map_values(|c: Seq<Seq<char>>| c.flatten());
    let ghost total = column_chars(all);
    let mut counts: Vec<u64> = vec![0u64; 128];
    assert forall|k: int| 0 <= k < 128 implies counts@[k] == occurrences(
        per_chunk.take(0).flatten(),
        k as u32,
    ) by {
        assert(per_chunk.take(0) =~= Seq::<Seq<char>>::empty());
        assert(per_chunk.take(0).flatten() =~= Seq::<char>::empty());
    }
    let mut i: usize = 0;
    while i < chunks.len()
        invariant
            i <= chunks@.len(),
            all == string_chunk_views(chunks@),
            per_chunk == all.map_values(|c: Seq<Seq<char>>| c.flatten()),
            total == per_chunk.flatten(),
            total.len() <= u64::MAX,
            counts@.len() == 128,
            forall|k: int|
                0 <= k < 128 ==> counts@[k] == occurrences(per_chunk.take(i as int).flatten(), k as u32),
        decreases chunks@.len() - i,
    {
        let rows = &chunks[i];
        let ghost done = per_chunk.take(i as int).flatten();
        let ghost rv = all[i as int];
        assert(rv == rows@.map_values(|s: String| s@));
        proof {
            lemma_flatten_prefix_len(per_chunk, i as int);
        }
        let mut j: usize = 0;
        assert(rv.take(0).flatten() =~= Seq::<char>::empty()) by {
            assert(rv.take(0) =~= Seq::<Seq<char>>::empty());
        }
        assert(done + rv.take(0).flatten() =~= done);
        while j < rows.len()
            invariant
                j <= rows@.len(),
                rv == rows@.map_values(|s: String| s@),
                done.len() + rv.flatten().len() <= total.len(),
                total.len() <= u64::MAX,
                counts@.len() == 128,
                forall|k: int|
                    0 <= k < 128 ==> counts@[k] == occurrences(done + rv.take(j as int).flatten(), k as u32),
            decreases rows@.len() - j,
        {
            let s = rows[j].as_str();
            let ghost before = done + rv.take(j as int).flatten();
            proof {
                lemma_flatten_prefix_len(rv, j as int);
                assert(rv[j as int] == s@);
                assert forall|k: int| 0 <= k < 128 implies counts@[k] + occurrences(s@, k as u32)
                    <= u64::MAX by {
                    lemma_occurrences_concat(before, s@, k as u32);
                    lemma_occurrences_concat(Seq::<char>::empty(), before + s@, k as u32);
                    assert(Seq::<char>::empty() + (before + s@) =~= before + s@);
                }
            }
            count_chars_into(&mut counts, s);
            proof {
                assert(done + rv.take(j + 1).flatten() =~= before + s@);
                assert forall|k: int| 0 <= k < 128 implies counts@[k] == occurrences(
                    done + rv.take(j + 1).flatten(),
                    k as u32,
                ) by {
                    lemma_occurrences_concat(before, s@, k as u32);
                }
            }
            j += 1;
        }
        proof {
            assert(rv.take(rows@.len() as int) =~= rv);
            assert(per_chunk[i as int] == rv.flatten());
        }
        i += 1;
    }
    assert(per_chunk.take(chunks@.len() as int) =~= per_chunk);
    proof {
        assert forall|k: int| 0 <= k < 128 implies counts@[k] == column_chars(
            string_chunk_views(chunks@),
        ).filter(|c: char| c as u32 == k as u32).len() by {
            lemma_occurrences_filter(column_chars(string_chunk_views(chunks@)), k as u32);
        }
    }
    counts
}

/// `a + b` clamped to the range of `i64`.
pub open spec fn sat_add(a: i64, b: i64) -> i64 {
    if a + b > i64::MAX {
        i64::MAX
    } else if a + b < i64::MIN {
        i64::MIN
    } else {
        (a + b) as i64
    }
}

/// The sum of `s` from left to right with every step clamped to `i64`.
pub open spec fn saturating_sum(s: Seq<i64>) -> i64
    decreases s.len(),
{
    if s.len() == 0 {
        0
    } else {
        sat_add(saturating_sum(s.drop_last()), s.last())
    }
}

/// `x / d` rounded toward zero, as Rust divides integers.
pub open spec fn trunc_div(x: int, d: int) -> int {
    if x >= 0 {
        x / d
    } else {
        -((-x) / d)
    }
}

/// All values of an int64 column, chunk by chunk.
pub open spec fn column_values(chunks: Seq<Vec<i64>>) -> Seq<i64> {
    chunks.map_values(|c: Vec<i64>| c@).flatten()
}

/// The sum of the values of an int64 column (clamped at each step to the range
/// of `i64`), their number, and the sum divided by the number (rounded toward
/// zero).
pub fn summarize_int64_column(chunks: &[Vec<i64>]) -> (r: (i64, i64, i64))
    requires
        1 <= column_values(chunks@).len() <= i64::MAX,
    ensures
        r.0 == saturating_sum(column_values(chunks@)),
        r.1 == column_values(chunks@).len(),
        r.2 == trunc_div(r.0 as int, r.1 as int),
{
    let ghost per_chunk = chunks@.map_values(|c: Vec<i64>| c@);
    let mut sum: i64 = 0;
    let mut nums: i64 = 0;
    let mut i: usize = 0;
    assert(per_chunk.take(0).flatten() =~= Seq::<i64>::empty()) by {
        assert(per_chunk.take(0) =~= Seq::<Seq<i64>>::empty());
    }
    while i < chunks.len()
        invariant
            i <= chunks@.len(),
            per_chunk == chunks@.map_values(|c: Vec<i64>| c@),
            per_chunk.flatten().len() <= i64::MAX,
            sum == saturating_sum(per_chunk.take(i as int).flatten()),
            nums == per_chunk.take(i as int).flatten().len(),
        decreases chunks@.len() - i,
    {
        let chunk = &chunks[i];
        let ghost done = per_chunk.take(i as int).flatten();
        proof {
            lemma_flatten_prefix_len(per_chunk, i as int);
        }
        assert(chunk@.take(0) =~= Seq::<i64>::empty());
        assert(done + chunk@.take(0) =~= done);
        let mut j: usize = 0;
        while j < chunk.len()
            invariant
                j <= chunk@.len(),
                done.len() + chunk@.len() <= i64::MAX,
                sum == saturating_sum(done + chunk@.take(j as int)),
                nums == (done + chunk@.take(j as int)).len(),
            decreases chunk@.len() - j,
        {
            let n = chunk[j];
            assert((done + chunk@.take(j + 1)).drop_last() =~= done + chunk@.take(j as int));
            sum = match sum.checked_add(n) {
                Some(v) => v,
                None => if n > 0 {
                    i64::MAX
                } else {
                    i64::MIN
                },
            };
            nums += 1;
            j += 1;
        }
        assert(chunk@.take(chunk@.len() as int) =~= chunk@);
        assert(per_chunk[i as int] == chunk@);
        i += 1;
    }
    assert(per_chunk.take(chunks@.len() as int) =~= per_chunk);
    let avg = match sum.checked_div(nums) {
        Some(v) => v,
        None => 0,
    };
    (sum, nums, avg)
}

} // verus!
