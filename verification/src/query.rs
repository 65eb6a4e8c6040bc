//! Queries as the query manager keeps them, their results and errors, and
//! the checks that planning a COPY makes.
use vstd::prelude::*;
use std::sync::Arc;
use crate::schema::{Table, TableView, ColumnView};

verus! {

/// A query: a COPY of a CSV file into a table, or a SELECT of a whole table.
#[derive(Clone)]
pub enum Query {
    Copy { source: String, target: String, columns: Option<Vec<String>>, contains_header: bool },
    Select { table: String },
}

/// The values of one result column, file by file and chunk by chunk.
#[derive(Clone, Debug)]
pub enum Column {
    String(Vec<Vec<Vec<String>>>),
    Int64(Vec<Vec<Vec<i64>>>),
}

/// The result of a completed query.
#[derive(Clone, Debug)]
pub enum QueryResult {
    Copy,
    Select(Arc<Vec<Column>>),
}

/// Why a query failed.
#[derive(Clone, Debug)]
pub enum QueryError {
    TableDeleted,
    ExecuteError,
    PlanError(QueryPlanError),
    Unknown(String),
}

/// Where a query is in its life.
#[derive(Clone)]
pub enum QueryStateMarker {
    Created,
    Planning,
    Running,
    Completed(QueryResult),
    Failed(QueryError),
}

/// Why a query could not be planned.
#[derive(Clone, Debug)]
pub enum QueryPlanError {
    UnknownColumns(String, Vec<String>),
    DuplicatedColumns(String, Vec<String>),
    UnknownTable(String),
    WrongNumberOfColumnsInOrder { table_name: String, expected: usize, got: usize },
    FailedToParseCsv(Option<String>),
    FailedToOpenCsv(Option<String>),
    TooManyColumnsInCsvAndNoOrder(String, Option<String>),
    UnknownError,
}

/// The character sequences of `v`.
pub open spec fn views(v: Seq<String>) -> Seq<Seq<char>> {
    v.map_values(|s: String| s@)
}

/// The names of the columns of a table.
pub open spec fn column_names(t: TableView) -> Seq<Seq<char>> {
    t.columns.map_values(|c: ColumnView| c.name)
}

/// Sorts the requested columns of a COPY, in order, into the column order
/// (first mention of a table column), the names that are no table column, and
/// the repeated mentions of a table column.
pub open spec fn sort_requested_columns(table: Seq<Seq<char>>, cols: Seq<Seq<char>>) -> (
    Seq<Seq<char>>,
    Seq<Seq<char>>,
    Seq<Seq<char>>,
)
    decreases cols.len(),
{
    if cols.len() == 0 {
        (seq![], seq![], seq![])
    } else {
        let (o, u, d) = sort_requested_columns(table, cols.drop_last());
        let c = cols.last();
        if !table.contains(c) {
            (o, u.push(c), d)
        } else if o.contains(c) {
            (o, u, d.push(c))
        } else {
            (o.push(c), u, d)
        }
    }
}

proof fn lemma_sorted_order_props(table: Seq<Seq<char>>, cols: Seq<Seq<char>>)
    ensures
        sort_requested_columns(table, cols).0.no_duplicates(),
        forall|i: int|
            0 <= i < sort_requested_columns(table, cols).0.len() ==> table.contains(
                #[trigger] sort_requested_columns(table, cols).0[i],
            ),
    decreases cols.len(),
{
    if cols.len() > 0 {
        lemma_sorted_order_props(table, cols.drop_last());
        let (o, u, d) = sort_requested_columns(table, cols.drop_last());
        let c = cols.last();
        if table.contains(c) && !o.contains(c) {
            assert forall|i: int, j: int| 0 <= i < j < o.push(c).len() implies o.push(c)[i] != o.push(c)[j] by {
                if j == o.len() {
                    assert(o[i] == o.push(c)[i]);
                }
            }
            assert forall|i: int| 0 <= i < o.push(c).len() implies table.contains(#[trigger] o.push(c)[i]) by {
                if i < o.len() {
                    assert(o.push(c)[i] == o[i]);
                }
            }
        }
    }
}

fn names_contain(names: &Vec<String>, name: &String) -> (r: bool)
    ensures
        r == views(names@).contains(name@),
{
    let mut i: usize = 0;
    while i < names.len()
        invariant
            i <= names@.len(),
            forall|k: int| 0 <= k < i ==> names@[k]@ != name@,
        decreases names@.len() - i,
    {
        if names[i] == *name {
            assert(views(names@)[i as int] == name@);
            return true;
        }
        i += 1;
    }
    assert forall|k: int| 0 <= k < views(names@).len() implies views(names@)[k] != name@ by {
        assert(views(names@)[k] == names@[k]@);
    }
    false
}

fn table_has_column(table: &Table, name: &String) -> (r: bool)
    ensures
        r == column_names(table@).contains(name@),
{
    let cols = table.columns();
    let ghost cv = cols@.map_values(|c: crate::schema::Column| c@);
    let mut i: usize = 0;
    while i < cols.len()
        invariant
            i <= cols@.len(),
            cv == cols@.map_values(|c: crate::schema::Column| c@),
            cv == table@.columns,
            forall|k: int| 0 <= k < i ==> cols@[k]@.name != name@,
        decreases cols@.len() - i,
    {
        if cols[i].name == *name {
            assert(column_names(table@)[i as int] == name@);
            return true;
        }
        i += 1;
    }
    assert forall|k: int| 0 <= k < column_names(table@).len() implies column_names(table@)[k] != name@ by {
        assert(column_names(table@)[k] == cv[k].name);
    }
    false
}

/// Whether `r` is the column order that a COPY into `table` (named
/// `target`) with the requested `columns` gets: the requested columns, or all
/// columns of the table when none are requested; refused for a request of the
/// wrong length, then for names that are no column of the table, then for
/// columns requested twice.
pub open spec fn column_order_is(
    r: Result<Vec<String>, QueryPlanError>,
    target: Seq<char>,
    table: TableView,
    columns: Option<Vec<String>>,
) -> bool {
    match columns {
        None => r matches Ok(order) && views(order@) == column_names(table),
        Some(cols) => if cols@.len() != table.columns.len() {
            r matches Err(QueryPlanError::WrongNumberOfColumnsInOrder { table_name, expected, got })
                && table_name@ == target && expected == table.columns.len() && got == cols@.len()
        } else {
            let (o, u, d) = sort_requested_columns(column_names(table), views(cols@));
            &&& u.len() > 0 ==> (r matches Err(QueryPlanError::UnknownColumns(t, v)) && t@
                == target && views(v@) == u)
            &&& u.len() == 0 && d.len() > 0 ==> (r matches Err(
                QueryPlanError::DuplicatedColumns(t, v),
            ) && t@ == target && views(v@) == d)
            &&& u.len() == 0 && d.len() == 0 ==> (r matches Ok(order) && views(order@) == o)
        },
    }
}

/// Decides the column order of a COPY into `table` (named `target`): the
/// requested columns, or all columns of the table when none are requested.
/// Refuses a request of the wrong length, then names that are no column of
/// the table, then columns requested twice. An accepted order names each
/// column at most once and only columns of the table.
pub fn plan_copy_column_order(target: &String, table: &Table, columns: Option<Vec<String>>) -> (r: Result<
    Vec<String>,
    QueryPlanError,
>)
    ensures
        column_order_is(r, target@, table@, columns),
        r matches Ok(order) ==> views(order@).no_duplicates() || columns is None,
        r matches Ok(order) ==> forall|i: int|
            0 <= i < order@.len() ==> column_names(table@).contains(#[trigger] order@[i]@),
{
    let tcols = table.columns();
    let ghost cv = tcols@.map_values(|c: crate::schema::Column| c@);
    match columns {
        None => {
            let mut order: Vec<String> = Vec::new();
            let mut i: usize = 0;
            while i < tcols.len()
                invariant
                    i <= tcols@.len(),
                    cv == tcols@.map_values(|c: crate::schema::Column| c@),
                    cv == table@.columns,
                    views(order@) == column_names(table@).take(i as int),
                decreases tcols@.len() - i,
            {
                let n = tcols[i].name.clone();
                proof {
                    assert(views(order@.push(n)) =~= views(order@).push(n@));
                    assert(column_names(table@).take(i + 1) =~= column_names(table@).take(i as int).push(
                        cv[i as int].name,
                    ));
                }
                order.push(n);
                i += 1;
            }
            assert(column_names(table@).take(tcols@.len() as int) =~= column_names(table@));
            proof {
                assert forall|k: int| 0 <= k < order@.len() implies column_names(table@).contains(
                    #[trigger] order@[k]@,
                ) by {
                    assert(views(order@)[k] == order@[k]@);
                }
            }
            Ok(order)
        },
        Some(cols) => {
            if tcols.len() != cols.len() {
                return Err(
                    QueryPlanError::WrongNumberOfColumnsInOrder {
                        table_name: target.clone(),
                        expected: tcols.len(),
                        got: cols.len(),
                    },
                );
            }
            let ghost tn = column_names(table@);
            let ghost cvs = views(cols@);
            let mut column_order: Vec<String> = Vec::new();
            let mut unknown_columns: Vec<String> = Vec::new();
            let mut duplicated_columns: Vec<String> = Vec::new();
            broadcast use vstd::std_specs::vec::axiom_spec_into_iter;
            let ghost all = cols@;
            for col in it: cols.into_iter()
                invariant
                    it.seq() == all,
                    cvs == views(all),
                    tn == column_names(table@),
                    sort_requested_columns(tn, cvs.take(it.index() as int)) == (
                        views(column_order@),
                        views(unknown_columns@),
                        views(duplicated_columns@),
                    ),
            {
                let ghost i = it.index();
                assert(cvs.take(i + 1).drop_last() =~= cvs.take(i as int));
                assert(cvs.take(i + 1).last() == col@);
                if !table_has_column(table, &col) {
                    assert(views(unknown_columns@.push(col)) =~= views(unknown_columns@).push(col@));
                    unknown_columns.push(col);
                } else if names_contain(&column_order, &col) {
                    assert(views(duplicated_columns@.push(col)) =~= views(duplicated_columns@).push(col@));
                    duplicated_columns.push(col);
                } else {
                    assert(views(column_order@.push(col)) =~= views(column_order@).push(col@));
                    column_order.push(col);
                }
            }
            assert(cvs.take(cvs.len() as int) =~= cvs);
            proof {
                lemma_sorted_order_props(tn, cvs);
            }
            if unknown_columns.len() > 0 {
                return Err(QueryPlanError::UnknownColumns(target.clone(), unknown_columns));
            }
            if duplicated_columns.len() > 0 {
                return Err(QueryPlanError::DuplicatedColumns(target.clone(), duplicated_columns));
            }
            proof {
                assert forall|k: int| 0 <= k < column_order@.len() implies tn.contains(
                    #[trigger] column_order@[k]@,
                ) by {
                    assert(views(column_order@)[k] == column_order@[k]@);
                }
            }
            Ok(column_order)
        },
    }
}

/// Decides what the first record of the CSV file of a COPY means for the
/// plan: `None` when the file has no readable first record, else its number
/// of fields. More fields than the table has columns is refused when no
/// column order was given.
pub fn check_csv_first_record(
    first_record_len: Option<usize>,
    columns_num: usize,
    columns_is_none: bool,
    table_name: String,
    source: Option<String>,
) -> (r: Result<(), QueryPlanError>)
    ensures
        first_record_len is None ==> r == Err::<(), QueryPlanError>(
            QueryPlanError::FailedToParseCsv(source),
        ),
        first_record_len matches Some(n) ==> (n > columns_num && columns_is_none ==> r == Err::<
            (),
            QueryPlanError,
        >(QueryPlanError::TooManyColumnsInCsvAndNoOrder(table_name, source))),
        first_record_len matches Some(n) ==> (!(n > columns_num && columns_is_none) ==> r is Ok),
{
    match first_record_len {
        Some(n) => {
            if n > columns_num && columns_is_none {
                Err(QueryPlanError::TooManyColumnsInCsvAndNoOrder(table_name, source))
            } else {
                Ok(())
            }
        },
        None => Err(QueryPlanError::FailedToParseCsv(source)),
    }
}

/// Plans a COPY into `table` (named `target`) once its CSV file `source`
/// was opened and its first record read (`None` when there is none): checks
/// the record, then decides the column order.
pub fn plan_copy(
    target: &String,
    table: &Table,
    columns: Option<Vec<String>>,
    first_record_len: Option<usize>,
    source: Option<String>,
) -> (r: Result<Vec<String>, QueryPlanError>)
    ensures
        first_record_len is None ==> r == Err::<Vec<String>, QueryPlanError>(
            QueryPlanError::FailedToParseCsv(source),
        ),
        first_record_len matches Some(n) && n > table@.columns.len() && columns is None ==> (r matches Err(
            QueryPlanError::TooManyColumnsInCsvAndNoOrder(name, s),
        ) && name@ == table@.name && s == source),
        first_record_len matches Some(n) && !(n > table@.columns.len() && columns is None)
            ==> column_order_is(r, target@, table@, columns),
{
    let columns_num = table.columns().len();
    let columns_is_none = columns.is_none();
    let table_name = table.name().clone();
    match check_csv_first_record(first_record_len, columns_num, columns_is_none, table_name, source) {
        Err(e) => Err(e),
        Ok(()) => plan_copy_column_order(target, table, columns),
    }
}

/// The number of fields of the first record that the `csv` crate reads from
/// `data` (fields separated by `;`; the first line skipped as a header when
/// `has_header`), or `None` when it reads no record.
pub uninterp spec fn csv_first_record_len(data: Seq<u8>, has_header: bool) -> Option<nat>;

/// Reads the first record of the CSV text `data` with `csv::ReaderBuilder`
/// (delimiter `;`, `has_headers(has_header)`, `from_reader`) and
/// `records().next()`: the number of its fields, or `None` when there is no
/// record or it cannot be read. The contract ties the outcome to
/// `csv_first_record_len`.
#[verifier::external_body]
fn csv_first_record(data: &[u8], has_header: bool) -> (r: Option<usize>)
    ensures
        r matches Some(n) ==> csv_first_record_len(data@, has_header) == Some(n as nat),
        r is None <==> csv_first_record_len(data@, has_header) is None,
{
    let mut reader = csv::ReaderBuilder::new().delimiter(b';').has_headers(has_header).from_reader(
        data,
    );
    match reader.records().next() {
        Some(Ok(record)) => Some(record.len()),
        _ => None,
    }
}

/// Plans a COPY into `table` (named `target`) from the CSV text `csv` of the
/// file `source`: reads its first record, checks it, then decides the column
/// order.
pub fn plan_copy_from_csv(
    target: &String,
    table: &Table,
    columns: Option<Vec<String>>,
    csv: &[u8],
    contains_header: bool,
    source: Option<String>,
) -> (r: Result<Vec<String>, QueryPlanError>)
    ensures
        csv_first_record_len(csv@, contains_header) is None ==> r == Err::<Vec<String>, QueryPlanError>(
            QueryPlanError::FailedToParseCsv(source),
        ),
        csv_first_record_len(csv@, contains_header) matches Some(n) && n > table@.columns.len()
            && columns is None ==> (r matches Err(
            QueryPlanError::TooManyColumnsInCsvAndNoOrder(name, s),
        ) && name@ == table@.name && s == source),
        csv_first_record_len(csv@, contains_header) matches Some(n) && !(n > table@.columns.len()
            && columns is None) ==> column_order_is(r, target@, table@, columns),
{
    let first_record_len = csv_first_record(csv, contains_header);
    plan_copy(target, table, columns, first_record_len, source)
}

} // verus!
