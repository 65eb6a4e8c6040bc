//! Running a SELECT: how the rows read from the column files of a table
//! become the columns of its result, and the state the query ends in.
use vstd::prelude::*;
use std::sync::Arc;
use crate::column_file::{FileContents, ReadError, ReadResult, read_result_view};
use crate::query::{Column, QueryError, QueryResult, QueryStateMarker};
use crate::schema::{self, ColumnType};

verus! {

/// Why running a query failed.
#[derive(Debug)]
pub enum ExecuteError {
    IoError(String, std::io::Error),
    ReadError(ReadError),
    UnknownError(String),
}

/// The rows of one column of a SELECT, file by file and chunk by chunk;
/// `Empty` for a column without files.
#[derive(Debug)]
pub enum SelectResult {
    Int64(Vec<Vec<Vec<i64>>>),
    Str(Vec<Vec<Vec<String>>>),
    Empty,
}

/// What a `SelectResult` holds.
pub enum SelectView {
    Int64(Seq<Seq<Seq<i64>>>),
    Str(Seq<Seq<Seq<Seq<char>>>>),
    Empty,
}

/// The rows of a `SelectResult`.
pub open spec fn select_view(r: SelectResult) -> SelectView {
    match r {
        SelectResult::Int64(v) => SelectView::Int64(
            v@.map_values(|f: Vec<Vec<i64>>| f@.map_values(|c: Vec<i64>| c@)),
        ),
        SelectResult::Str(v) => SelectView::Str(
            v@.map_values(
                |f: Vec<Vec<String>>| f@.map_values(|c: Vec<String>| c@.map_values(|s: String| s@)),
            ),
        ),
        SelectResult::Empty => SelectView::Empty,
    }
}

/// The number of files of each column.
pub open spec fn file_counts(columns: Seq<schema::Column>) -> Seq<nat> {
    columns.map_values(|c: schema::Column| c.files@.len())
}

/// Whether `reads` holds exactly one read for each file of each column:
/// the column's position, the file's position in the column, and the rows.
pub open spec fn reads_cover(counts: Seq<nat>, reads: Seq<(usize, usize, ReadResult)>) -> bool {
    &&& forall|i: int|
        0 <= i < reads.len() ==> (#[trigger] reads[i]).0 < counts.len() && reads[i].1
            < counts[reads[i].0 as int]
    &&& forall|i: int, k: int|
        0 <= i < k < reads.len() ==> ((#[trigger] reads[i]).0, reads[i].1) != (
            (#[trigger] reads[k]).0,
            reads[k].1,
        )
    &&& forall|c: int, j: int|
        0 <= c < counts.len() && 0 <= j < counts[c] ==> #[trigger] has_read(reads, c, j)
}

/// Whether `reads` holds a read of file `j` of column `c`.
pub open spec fn has_read(reads: Seq<(usize, usize, ReadResult)>, c: int, j: int) -> bool {
    exists|i: int| 0 <= i < reads.len() && reads[i].0 == c && reads[i].1 == j
}

/// The position in `reads` of the read of file `j` of column `c`.
pub open spec fn read_index(reads: Seq<(usize, usize, ReadResult)>, c: int, j: int) -> int {
    choose|i: int| 0 <= i < reads.len() && reads[i].0 == c && reads[i].1 == j
}

/// The rows of the files of column `c`, in the order of the files.
pub open spec fn column_files(
    counts: Seq<nat>,
    reads: Seq<(usize, usize, ReadResult)>,
    c: int,
) -> Seq<FileContents> {
    Seq::new(counts[c], |j: int| read_result_view(reads[read_index(reads, c, j)].2))
}

/// The number of columns up to the last one that has a file.
pub open spec fn used_columns(counts: Seq<nat>) -> nat
    decreases counts.len(),
{
    if counts.len() == 0 {
        0
    } else if counts.last() > 0 {
        counts.len()
    } else {
        used_columns(counts.drop_last())
    }
}

/// The rows of a column made of the rows of its files: `Empty` without
/// files, and `None` when its files hold values of different types.
pub open spec fn merge_files(files: Seq<FileContents>) -> Option<SelectView> {
    if files.len() == 0 {
        Some(SelectView::Empty)
    } else if forall|i: int| 0 <= i < files.len() ==> (#[trigger] files[i]) is Int64 {
        Some(SelectView::Int64(files.map_values(|f: FileContents| f->Int64_0)))
    } else if forall|i: int| 0 <= i < files.len() ==> (#[trigger] files[i]) is Str {
        Some(SelectView::Str(files.map_values(|f: FileContents| f->Str_0)))
    } else {
        None
    }
}

/// The columns of a SELECT up to the last one that has a file, or `None`
/// when one of them mixes types.
pub open spec fn spec_merge(counts: Seq<nat>, reads: Seq<(usize, usize, ReadResult)>) -> Option<
    Seq<SelectView>,
> {
    let n = used_columns(counts);
    if forall|c: int| 0 <= c < n ==> (#[trigger] merge_files(column_files(counts, reads, c))) is Some {
        Some(Seq::new(n, |c: int| merge_files(column_files(counts, reads, c))->0))
    } else {
        None
    }
}

proof fn lemma_used_columns_bound(counts: Seq<nat>)
    ensures
        used_columns(counts) <= counts.len(),
        forall|c: int| used_columns(counts) <= c < counts.len() ==> counts[c] == 0,
    decreases counts.len(),
{
    if counts.len() > 0 && counts.last() == 0 {
        let d = counts.drop_last();
        lemma_used_columns_bound(d);
        assert forall|c: int| used_columns(counts) <= c < counts.len() implies counts[c] == 0 by {
            if c < d.len() {
                assert(counts[c] == d[c]);
            }
        }
    }
}

/// Extending the files of a column by one keeps a mix of types a mix, and
/// adds the new file's rows to a merged column of its type.
proof fn lemma_merge_step(files: Seq<FileContents>, j: int)
    requires
        0 <= j < files.len(),
    ensures
        merge_files(files.take(j + 1)) == match (merge_files(files.take(j)), files[j]) {
            (Some(SelectView::Empty), FileContents::Int64(a)) => Some(SelectView::Int64(seq![a])),
            (Some(SelectView::Empty), FileContents::Str(a)) => Some(SelectView::Str(seq![a])),
            (Some(SelectView::Int64(v)), FileContents::Int64(a)) => Some(SelectView::Int64(v.push(a))),
            (Some(SelectView::Str(v)), FileContents::Str(a)) => Some(SelectView::Str(v.push(a))),
            _ => None::<SelectView>,
        },
{
    let p = files.take(j);
    let q = files.take(j + 1);
    assert(q =~= p.push(files[j]));
    assert forall|i: int| 0 <= i < p.len() implies q[i] == p[i] by {}
    assert(q[j] == files[j]);
    if j == 0 {
        assert(q.map_values(|f: FileContents| f->Int64_0) =~= seq![files[0]->Int64_0]);
        assert(q.map_values(|f: FileContents| f->Str_0) =~= seq![files[0]->Str_0]);
    } else {
        assert(q.map_values(|f: FileContents| f->Int64_0) =~= p.map_values(
            |f: FileContents| f->Int64_0,
        ).push(files[j]->Int64_0));
        assert(q.map_values(|f: FileContents| f->Str_0) =~= p.map_values(
            |f: FileContents| f->Str_0,
        ).push(files[j]->Str_0));
        if p[0] is Int64 {
            assert(!(q[0] is Str));
        } else {
            assert(!(q[0] is Int64));
        }
    }
}

/// A column whose first files mix types mixes types.
proof fn lemma_merge_prefix_mixed(files: Seq<FileContents>, j: int)
    requires
        0 <= j <= files.len(),
        merge_files(files.take(j)) is None,
    ensures
        merge_files(files) is None,
{
    let p = files.take(j);
    let a = choose|i: int| 0 <= i < p.len() && !(p[i] is Int64);
    let b = choose|i: int| 0 <= i < p.len() && !(p[i] is Str);
    assert(files[a] == p[a]);
    assert(files[b] == p[b]);
}

/// The column of the used columns that comes after `c`, given what the
/// first `c + 1` counts are.
proof fn lemma_used_columns_step(counts: Seq<nat>, i: int)
    requires
        0 <= i < counts.len(),
    ensures
        used_columns(counts.take(i + 1)) == if counts[i] > 0 {
            (i + 1) as nat
        } else {
            used_columns(counts.take(i))
        },
{
    assert(counts.take(i + 1).drop_last() =~= counts.take(i));
}

fn used_column_count(columns: &Vec<schema::Column>) -> (n: usize)
    ensures
        n == used_columns(file_counts(columns@)),
{
    let ghost counts = file_counts(columns@);
    let mut n: usize = 0;
    let mut i: usize = 0;
    while i < columns.len()
        invariant
            i <= columns@.len(),
            counts == file_counts(columns@),
            n == used_columns(counts.take(i as int)),
        decreases columns@.len() - i,
    {
        proof {
            lemma_used_columns_step(counts, i as int);
        }
        if columns[i].files.len() > 0 {
            n = i + 1;
        }
        i += 1;
    }
    assert(counts.take(columns@.len() as int) =~= counts);
    n
}

fn find_read(keys: &Vec<(usize, usize)>, c: usize, j: usize) -> (i: usize)
    requires
        exists|k: int| 0 <= k < keys@.len() && keys@[k] == (c, j),
    ensures
        i < keys@.len(),
        keys@[i as int] == (c, j),
{
    let mut i: usize = 0;
    while i < keys.len()
        invariant
            i <= keys@.len(),
            forall|k: int| 0 <= k < i ==> keys@[k] != (c, j),
        decreases keys@.len() - i,
    {
        if keys[i].0 == c && keys[i].1 == j {
            return i;
        }
        i += 1;
    }
    i
}

/// Whether `r` is what `spec_merge` gives for the reads.
pub open spec fn merge_outcome_is(
    r: Result<Vec<SelectResult>, ExecuteError>,
    expected: Option<Seq<SelectView>>,
) -> bool {
    match expected {
        Some(cols) => r matches Ok(v) && v@.len() == cols.len() && forall|k: int|
            0 <= k < cols.len() ==> select_view(#[trigger] v@[k]) == cols[k],
        None => r matches Err(ExecuteError::UnknownError(m)) && m@
            == "type mismatch while reading column files"@,
    }
}

/// Gathers the rows read from the files of the columns of a SELECT into one
/// result per column, each file's rows in the order of the files, up to the
/// last column that has a file; a column without files is `Empty`. Fails
/// when the files of a column hold values of different types.
pub fn merge_select_results(
    columns: &Vec<schema::Column>,
    reads: Vec<(usize, usize, ReadResult)>,
) -> (r: Result<Vec<SelectResult>, ExecuteError>)
    requires
        reads_cover(file_counts(columns@), reads@),
    ensures
        merge_outcome_is(r, spec_merge(file_counts(columns@), reads@)),
        r matches Ok(v) ==> v@.len() <= columns@.len(),
{
    let ghost counts = file_counts(columns@);
    let ghost orig = reads@;
    let mut keys: Vec<(usize, usize)> = Vec::new();
    let mut slots: Vec<Option<ReadResult>> = Vec::new();
    broadcast use vstd::std_specs::vec::axiom_spec_into_iter;
    for item in it: reads.into_iter()
        invariant
            it.seq() == orig,
            keys@.len() == it.index(),
            slots@.len() == it.index(),
            forall|k: int| 0 <= k < it.index() ==> (#[trigger] keys@[k]) == (orig[k].0, orig[k].1),
            forall|k: int| 0 <= k < it.index() ==> #[trigger] slots@[k] == Some(orig[k].2),
    {
        let (c, j, data) = item;
        keys.push((c, j));
        slots.push(Some(data));
    }
    let n = used_column_count(columns);
    proof {
        lemma_used_columns_bound(counts);
    }
    let mut result: Vec<SelectResult> = Vec::new();
    let mut c: usize = 0;
    while c < n
        invariant
            counts == file_counts(columns@),
            orig == reads@,
            reads_cover(counts, orig),
            n == used_columns(counts),
            n <= columns@.len(),
            c <= n,
            keys@.len() == orig.len(),
            slots@.len() == orig.len(),
            forall|k: int| 0 <= k < orig.len() ==> (#[trigger] keys@[k]) == (orig[k].0, orig[k].1),
            forall|k: int| 0 <= k < orig.len() && orig[k].0 >= c ==> #[trigger] slots@[k] == Some(orig[k].2),
            result@.len() == c,
            forall|k: int|
                0 <= k < c ==> (#[trigger] merge_files(column_files(counts, orig, k))) == Some(
                    select_view(result@[k]),
                ),
        decreases n - c,
    {
        let ghost files = column_files(counts, orig, c as int);
        let count = columns[c].files.len();
        let mut acc = SelectResult::Empty;
        let mut j: usize = 0;
        while j < count
            invariant
                counts == file_counts(columns@),
                orig == reads@,
                reads_cover(counts, orig),
                c < n <= columns@.len(),
                n == used_columns(counts),
                count == counts[c as int],
                files == column_files(counts, orig, c as int),
                j <= count,
                keys@.len() == orig.len(),
                slots@.len() == orig.len(),
                forall|k: int| 0 <= k < orig.len() ==> (#[trigger] keys@[k]) == (orig[k].0, orig[k].1),
                forall|k: int|
                    0 <= k < orig.len() && (orig[k].0 > c || (orig[k].0 == c && orig[k].1 >= j))
                        ==> #[trigger] slots@[k] == Some(orig[k].2),
                merge_files(files.take(j as int)) == Some(select_view(acc)),
            decreases count - j,
        {
            proof {
                assert(has_read(orig, c as int, j as int));
                let w = choose|i: int| 0 <= i < orig.len() && orig[i].0 == c && orig[i].1 == j;
                assert(keys@[w] == (c, j));
            }
            let i = find_read(&keys, c, j);
            proof {
                let w = read_index(orig, c as int, j as int);
                if w != i {
                    if w < i {
                        assert(((orig[w]).0, orig[w].1) != ((orig[i as int]).0, orig[i as int].1));
                    } else {
                        assert(((orig[i as int]).0, orig[i as int].1) != ((orig[w]).0, orig[w].1));
                    }
                }
                assert(files[j as int] == read_result_view(orig[i as int].2));
                lemma_merge_step(files, j as int);
            }
            let mut taken: Option<ReadResult> = None;
            std::mem::swap(&mut taken, &mut slots[i]);
            let data = taken.unwrap();
            let ghost old_acc = select_view(acc);
            acc = match (acc, data) {
                (SelectResult::Empty, ReadResult::Int64(a)) => {
                    let mut v: Vec<Vec<Vec<i64>>> = Vec::new();
                    v.push(a);
                    proof {
                        assert(select_view(SelectResult::Int64(v))->Int64_0 =~= seq![
                            files[j as int]->Int64_0,
                        ]);
                    }
                    SelectResult::Int64(v)
                },
                (SelectResult::Empty, ReadResult::Str(a)) => {
                    let mut v: Vec<Vec<Vec<String>>> = Vec::new();
                    v.push(a);
                    proof {
                        assert(select_view(SelectResult::Str(v))->Str_0 =~= seq![
                            files[j as int]->Str_0,
                        ]);
                    }
                    SelectResult::Str(v)
                },
                (SelectResult::Int64(mut v), ReadResult::Int64(a)) => {
                    let ghost v0 = v@;
                    v.push(a);
                    proof {
                        assert(select_view(SelectResult::Int64(v))->Int64_0 =~= old_acc->Int64_0.push(
                            files[j as int]->Int64_0,
                        )) by {
                            assert(v@ == v0.push(a));
                        }
                    }
                    SelectResult::Int64(v)
                },
                (SelectResult::Str(mut v), ReadResult::Str(a)) => {
                    let ghost v0 = v@;
                    v.push(a);
                    proof {
                        assert(select_view(SelectResult::Str(v))->Str_0 =~= old_acc->Str_0.push(
                            files[j as int]->Str_0,
                        )) by {
                            assert(v@ == v0.push(a));
                        }
                    }
                    SelectResult::Str(v)
                },
                _ => {
                    proof {
                        assert(merge_files(files.take(j + 1)) is None);
                        lemma_merge_prefix_mixed(files, j + 1);
                        assert(!(merge_files(column_files(counts, orig, c as int)) is Some));
                        assert(spec_merge(counts, orig) is None);
                    }
                    return Err(
                        ExecuteError::UnknownError(
                            String::from_str("type mismatch while reading column files"),
                        ),
                    );
                },
            };
            j += 1;
        }
        assert(files.take(count as int) =~= files);
        result.push(acc);
        c += 1;
    }
    proof {
        assert(forall|k: int| 0 <= k < n ==> (#[trigger] merge_files(column_files(counts, orig, k))) is Some);
        let cols = spec_merge(counts, orig)->0;
        assert forall|k: int| 0 <= k < n implies select_view(#[trigger] result@[k]) == cols[k] by {
            assert(merge_files(column_files(counts, orig, k)) == Some(select_view(result@[k])));
        }
    }
    Ok(result)
}

/// What a result column holds.
pub open spec fn column_view(c: Column) -> SelectView {
    match c {
        Column::Int64(v) => select_view(SelectResult::Int64(v)),
        Column::String(v) => select_view(SelectResult::Str(v)),
    }
}

/// The rows of a SELECT column as the query result gives them: a column
/// without files gives no rows of its type.
pub open spec fn filled_view(r: SelectView, t: ColumnType) -> SelectView {
    match r {
        SelectView::Empty => match t {
            ColumnType::INT64 => SelectView::Int64(seq![]),
            ColumnType::VARCHAR => SelectView::Str(seq![]),
        },
        _ => r,
    }
}

/// Turns the per-column results of a SELECT into the columns of its query
/// result, column by column.
pub fn select_columns(results: Vec<SelectResult>, columns: &Vec<schema::Column>) -> (r: Vec<Column>)
    requires
        results@.len() <= columns@.len(),
    ensures
        r@.len() == results@.len(),
        forall|k: int|
            0 <= k < r@.len() ==> column_view(#[trigger] r@[k]) == filled_view(
                select_view(results@[k]),
                columns@[k].column_type,
            ),
{
    let ghost orig = results@;
    let mut results = results;
    let mut r: Vec<Column> = Vec::new();
    let mut idx: usize = 0;
    while idx < results.len()
        invariant
            results@.len() == orig.len(),
            orig.len() <= columns@.len(),
            idx <= orig.len(),
            r@.len() == idx,
            forall|k: int| idx <= k < orig.len() ==> #[trigger] results@[k] == orig[k],
            forall|k: int|
                0 <= k < idx ==> column_view(#[trigger] r@[k]) == filled_view(
                    select_view(orig[k]),
                    columns@[k].column_type,
                ),
        decreases orig.len() - idx,
    {
        let mut res = SelectResult::Empty;
        std::mem::swap(&mut res, &mut results[idx]);
        let col = match res {
            SelectResult::Int64(v) => Column::Int64(v),
            SelectResult::Str(v) => Column::String(v),
            SelectResult::Empty => match columns[idx].column_type {
                ColumnType::INT64 => {
                    let v: Vec<Vec<Vec<i64>>> = Vec::new();
                    assert(select_view(SelectResult::Int64(v))->Int64_0 =~= seq![]);
                    Column::Int64(v)
                },
                ColumnType::VARCHAR => {
                    let v: Vec<Vec<Vec<String>>> = Vec::new();
                    assert(select_view(SelectResult::Str(v))->Str_0 =~= seq![]);
                    Column::String(v)
                },
            },
        };
        r.push(col);
        idx += 1;
    }
    r
}

/// The state a SELECT on a table that still exists ends in: completed with
/// its columns, or failed.
pub fn select_query_state(
    columns: &Vec<schema::Column>,
    outcome: Result<Vec<SelectResult>, ExecuteError>,
) -> (r: QueryStateMarker)
    requires
        outcome matches Ok(v) ==> v@.len() <= columns@.len(),
    ensures
        match outcome {
            Ok(v) => r matches QueryStateMarker::Completed(QueryResult::Select(cols)) && cols@.len()
                == v@.len() && forall|k: int|
                0 <= k < v@.len() ==> column_view(#[trigger] cols@[k]) == filled_view(
                    select_view(v@[k]),
                    columns@[k].column_type,
                ),
            Err(_) => r matches QueryStateMarker::Failed(QueryError::ExecuteError),
        },
{
    match outcome {
        Ok(v) => QueryStateMarker::Completed(QueryResult::Select(Arc::new(select_columns(v, columns)))),
        Err(_) => QueryStateMarker::Failed(QueryError::ExecuteError),
    }
}

fn find_read_key(reads: &Vec<(usize, usize, ReadResult)>, c: usize, j: usize) -> (r: bool)
    ensures
        r == has_read(reads@, c as int, j as int),
{
    let mut i: usize = 0;
    while i < reads.len()
        invariant
            i <= reads@.len(),
            forall|k: int| 0 <= k < i ==> !((#[trigger] reads@[k]).0 == c && reads@[k].1 == j),
        decreases reads@.len() - i,
    {
        if reads[i].0 == c && reads[i].1 == j {
            assert(reads@[i as int].0 == c && reads@[i as int].1 == j);
            return true;
        }
        i += 1;
    }
    false
}

/// Checks that `reads` holds exactly one read for each file of each of
/// `columns`, as `merge_select_results` needs.
pub fn reads_cover_files(columns: &Vec<schema::Column>, reads: &Vec<(usize, usize, ReadResult)>) -> (r: bool)
    ensures
        r == reads_cover(file_counts(columns@), reads@),
{
    let ghost counts = file_counts(columns@);
    let mut i: usize = 0;
    while i < reads.len()
        invariant
            i <= reads@.len(),
            counts == file_counts(columns@),
            forall|k: int|
                0 <= k < i ==> (#[trigger] reads@[k]).0 < counts.len() && reads@[k].1
                    < counts[reads@[k].0 as int],
        decreases reads@.len() - i,
    {
        let c = reads[i].0;
        if c >= columns.len() || reads[i].1 >= columns[c].files.len() {
            assert(!((reads@[i as int]).0 < counts.len() && reads@[i as int].1 < counts[reads@[i as int].0 as int]));
            return false;
        }
        i += 1;
    }
    let mut a: usize = 0;
    while a < reads.len()
        invariant
            a <= reads@.len(),
            forall|x: int, y: int|
                0 <= x < a && x < y < reads@.len() ==> ((#[trigger] reads@[x]).0, reads@[x].1) != (
                    (#[trigger] reads@[y]).0,
                    reads@[y].1,
                ),
        decreases reads@.len() - a,
    {
        let mut b: usize = a + 1;
        while b < reads.len()
            invariant
                a < reads@.len(),
                a + 1 <= b <= reads@.len(),
                forall|x: int, y: int|
                    0 <= x < a && x < y < reads@.len() ==> ((#[trigger] reads@[x]).0, reads@[x].1)
                        != ((#[trigger] reads@[y]).0, reads@[y].1),
                forall|y: int|
                    a < y < b ==> (reads@[a as int].0, reads@[a as int].1) != (
                        (#[trigger] reads@[y]).0,
                        reads@[y].1,
                    ),
            decreases reads@.len() - b,
        {
            if reads[a].0 == reads[b].0 && reads[a].1 == reads[b].1 {
                assert(((reads@[a as int]).0, reads@[a as int].1) == ((reads@[b as int]).0, reads@[b as int].1));
                return false;
            }
            b += 1;
        }
        a += 1;
    }
    let mut c: usize = 0;
    while c < columns.len()
        invariant
            c <= columns@.len(),
            counts == file_counts(columns@),
            forall|x: int, j: int|
                0 <= x < c && 0 <= j < counts[x] ==> #[trigger] has_read(reads@, x, j),
        decreases columns@.len() - c,
    {
        let n = columns[c].files.len();
        let mut j: usize = 0;
        while j < n
            invariant
                c < columns@.len(),
                counts == file_counts(columns@),
                n == counts[c as int],
                j <= n,
                forall|x: int, y: int|
                    0 <= x < c && 0 <= y < counts[x] ==> #[trigger] has_read(reads@, x, y),
                forall|y: int| 0 <= y < j ==> #[trigger] has_read(reads@, c as int, y),
            decreases n - j,
        {
            if !find_read_key(reads, c, j) {
                return false;
            }
            j += 1;
        }
        c += 1;
    }
    true
}

} // verus!
