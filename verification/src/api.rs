//! What the HTTP interface answers: conversions between the query manager's
//! values and the interface models, and the response to each request once
//! the managers have been consulted.
use vstd::prelude::*;
use crate::models::{
    self, CopyQuery, Error, MultipleProblemsError, MultipleProblemsErrorProblemsInner,
    QueryQueryDefinition, QueryResultInner, QueryResultInnerColumnsInner, QueryStatus,
    SelectQuery, ShallowQuery, ShallowTable, SystemInformation, TableSchema,
};
use crate::query::{Column, Query, QueryError, QueryResult, QueryStateMarker, views};
use crate::query_id::{format_query_id, uuid_text};
use crate::schema::{self, ColumnView, Table, TableError, TableView};
use vstd::seq_lib::lemma_flatten_concat;

verus! {

/// Errors of the interface that are not answers to the client.
#[derive(Debug)]
pub enum ApiError {
    Unimplemented,
    UnknownError(String),
}

/// Why the schema manager refused a request.
#[derive(Debug)]
pub enum SchemaError {
    TableExists(String),
    UnknownTable(String),
    TableError(TableError),
    /// The table could not be written as JSON (the serializer's message).
    SerdeError(String),
    IoError(String, std::io::Error),
}

/// Response of `GET /system/info`.
#[derive(Debug)]
pub enum GetSystemInfoResponse {
    /// Basic information about the system
    Status200(SystemInformation),
}

/// Response of `GET /queries`.
#[derive(Debug)]
pub enum GetQueriesResponse {
    /// Array of queries submitted to the system
    Status200(Vec<ShallowQuery>),
}

/// Response of `GET /query/{queryId}`.
#[derive(Debug)]
pub enum GetQueryByIdResponse {
    /// Detailed Query description
    Status200(models::Query),
    /// Generic error
    Status404(Error),
}

/// Response of `GET /error/{queryId}`.
#[derive(Debug)]
pub enum GetQueryErrorResponse {
    /// The problems of a failed query
    Status200(MultipleProblemsError),
    /// Generic error
    Status404(Error),
    /// Generic error
    Status400(Error),
}

/// Response of `GET /result/{queryId}`.
#[derive(Debug)]
pub enum GetQueryResultResponse {
    /// Result of selected query
    Status200(Vec<QueryResultInner>),
    /// Generic error
    Status404(Error),
    /// Generic error
    Status400(Error),
}

/// Response of `POST /query`.
#[derive(Debug)]
pub enum SubmitQueryResponse {
    /// Query has been created successfully
    Status200(String),
    /// The problems of the request
    Status400(MultipleProblemsError),
}

/// Response of `PUT /table`.
#[derive(Debug)]
pub enum CreateTableResponse {
    /// Table created successfully
    Status200(String),
    /// The problems of the request
    Status400(MultipleProblemsError),
}

/// Response of `DELETE /table/{tableId}`.
#[derive(Debug)]
pub enum DeleteTableResponse {
    /// Table has been deleted successfully
    Status200,
    /// Generic error
    Status404(Error),
}

/// Response of `GET /table/{tableId}`.
#[derive(Debug)]
pub enum GetTableByIdResponse {
    /// Detailed Table description
    Status200(TableSchema),
    /// Generic error
    Status404(Error),
}

/// Response of `GET /tables`.
#[derive(Debug)]
pub enum GetTablesResponse {
    /// Array of tables in database
    Status200(Vec<ShallowTable>),
}

/// Copies a list of strings.
pub fn clone_strings(v: &Vec<String>) -> (r: Vec<String>)
    ensures
        views(r@) == views(v@),
{
    let mut r: Vec<String> = Vec::new();
    let mut i: usize = 0;
    while i < v.len()
        invariant
            i <= v@.len(),
            views(r@) == views(v@.take(i as int)),
        decreases v@.len() - i,
    {
        let s = v[i].clone();
        assert(views(r@.push(s)) =~= views(r@).push(s@));
        assert(views(v@.take(i + 1)) =~= views(v@.take(i as int)).push(v@[i as int]@));
        r.push(s);
        i += 1;
    }
    assert(v@.take(v@.len() as int) =~= v@);
    r
}

/// The character sequences of an optional list of strings.
pub open spec fn opt_views(v: Option<Vec<String>>) -> Option<Seq<Seq<char>>> {
    match v {
        Some(v) => Some(views(v@)),
        None => None,
    }
}

/// The status that the interface reports for a query state.
pub open spec fn status_of(marker: QueryStateMarker) -> QueryStatus {
    match marker {
        QueryStateMarker::Created => QueryStatus::Created,
        QueryStateMarker::Planning => QueryStatus::Planning,
        QueryStateMarker::Running => QueryStatus::Running,
        QueryStateMarker::Completed(_) => QueryStatus::Completed,
        QueryStateMarker::Failed(_) => QueryStatus::Failed,
    }
}

/// The status that the interface reports for a query state.
pub fn query_state_marker_to_status(marker: &QueryStateMarker) -> (r: QueryStatus)
    ensures
        r == status_of(*marker),
{
    match marker {
        QueryStateMarker::Created => QueryStatus::Created,
        QueryStateMarker::Planning => QueryStatus::Planning,
        QueryStateMarker::Running => QueryStatus::Running,
        QueryStateMarker::Completed(_) => QueryStatus::Completed,
        QueryStateMarker::Failed(_) => QueryStatus::Failed,
    }
}

/// Whether the model definition `d` describes the query `q`.
pub open spec fn describes(d: QueryQueryDefinition, q: Query) -> bool {
    match q {
        Query::Copy { source, target, columns, contains_header } => match d {
            QueryQueryDefinition::CopyQuery(c) => {
                &&& c.source_filepath@ == source@
                &&& c.destination_table_name@ == target@
                &&& opt_views(c.destination_columns) == opt_views(columns)
                &&& c.does_csv_contain_header == Some(contains_header)
            },
            _ => false,
        },
        Query::Select { table } => match d {
            QueryQueryDefinition::SelectQuery(s) => s.table_name matches Some(t) && t@ == table@,
            _ => false,
        },
    }
}

/// Describes a query of the query manager as an interface model.
pub fn manager_query_to_model(query: &Query) -> (r: QueryQueryDefinition)
    ensures
        describes(r, *query),
{
    match query {
        Query::Copy { source, target, columns, contains_header } => {
            let destination_columns = match columns {
                Some(c) => Some(clone_strings(c)),
                None => None,
            };
            QueryQueryDefinition::CopyQuery(
                CopyQuery {
                    source_filepath: source.clone(),
                    destination_table_name: target.clone(),
                    destination_columns,
                    does_csv_contain_header: Some(*contains_header),
                },
            )
        },
        Query::Select { table } => QueryQueryDefinition::SelectQuery(
            SelectQuery { table_name: Some(table.clone()) },
        ),
    }
}

/// The problems reported for a failed query: none are described.
pub fn query_error_to_problems(error: &QueryError) -> (r: MultipleProblemsError)
    ensures
        r.problems@.len() == 0,
{
    MultipleProblemsError { problems: Vec::new() }
}

/// The query of the query manager that a submitted definition stands for:
/// `None` for a SELECT that names no table. A COPY without the header flag
/// reads the file as having no header.
pub open spec fn spec_manager_query(d: QueryQueryDefinition) -> Option<Query> {
    match d {
        QueryQueryDefinition::CopyQuery(c) => Some(
            Query::Copy {
                source: c.source_filepath,
                target: c.destination_table_name,
                columns: c.destination_columns,
                contains_header: c.does_csv_contain_header == Some(true),
            },
        ),
        QueryQueryDefinition::SelectQuery(s) => match s.table_name {
            Some(t) => Some(Query::Select { table: t }),
            None => None,
        },
    }
}

/// Whether two queries of the query manager are the same query.
pub open spec fn same_query(a: Query, b: Query) -> bool {
    match (a, b) {
        (
            Query::Copy { source: s1, target: t1, columns: c1, contains_header: h1 },
            Query::Copy { source: s2, target: t2, columns: c2, contains_header: h2 },
        ) => s1@ == s2@ && t1@ == t2@ && opt_views(c1) == opt_views(c2) && h1 == h2,
        (Query::Select { table: t1 }, Query::Select { table: t2 }) => t1@ == t2@,
        _ => false,
    }
}

/// Turns a submitted query definition into a query of the query manager;
/// refuses a SELECT that names no table.
pub fn model_query_to_manager_query(query: QueryQueryDefinition) -> (r: Result<
    Query,
    MultipleProblemsError,
>)
    ensures
        match spec_manager_query(query) {
            Some(q) => r == Ok::<Query, MultipleProblemsError>(q),
            None => r matches Err(e) && e.problems@.len() == 1 && e.problems@[0].error@
                == "missing table name"@ && e.problems@[0].context is None,
        },
{
    match query {
        QueryQueryDefinition::SelectQuery(s) => match s.table_name {
            Some(table) => Ok(Query::Select { table }),
            None => {
                let mut problems: Vec<MultipleProblemsErrorProblemsInner> = Vec::new();
                problems.push(
                    MultipleProblemsErrorProblemsInner {
                        error: String::from_str("missing table name"),
                        context: None,
                    },
                );
                Err(MultipleProblemsError { problems })
            },
        },
        QueryQueryDefinition::CopyQuery(s) => Ok(
            Query::Copy {
                source: s.source_filepath,
                target: s.destination_table_name,
                columns: s.destination_columns,
                contains_header: match s.does_csv_contain_header {
                    Some(b) => b,
                    None => false,
                },
            },
        ),
    }
}

/// The values of an int64 file, chunk after chunk.
pub open spec fn int_file_values(f: Vec<Vec<i64>>) -> Seq<i64> {
    f@.map_values(|c: Vec<i64>| c@).flatten()
}

/// The values of an int64 result column, file after file.
pub open spec fn int_column_values(c: Seq<Vec<Vec<i64>>>) -> Seq<i64> {
    c.map_values(|f: Vec<Vec<i64>>| int_file_values(f)).flatten()
}

/// The strings of a string file, chunk after chunk.
pub open spec fn str_file_values(f: Vec<Vec<String>>) -> Seq<Seq<char>> {
    f@.map_values(|c: Vec<String>| views(c@)).flatten()
}

/// The strings of a string result column, file after file.
pub open spec fn str_column_values(c: Seq<Vec<Vec<String>>>) -> Seq<Seq<char>> {
    c.map_values(|f: Vec<Vec<String>>| str_file_values(f)).flatten()
}

/// The first `limit` rows of `s` (all of them without a limit).
pub open spec fn limit_rows<A>(s: Seq<A>, limit: Option<usize>) -> Seq<A> {
    match limit {
        Some(l) => if l < s.len() {
            s.take(l as int)
        } else {
            s
        },
        None => s,
    }
}

/// The number of rows that a result column gives under `limit`.
pub open spec fn result_column_len(c: Column, limit: Option<usize>) -> nat {
    match c {
        Column::String(v) => limit_rows(str_column_values(v@), limit).len(),
        Column::Int64(v) => limit_rows(int_column_values(v@), limit).len(),
    }
}

/// Whether all result columns give the same number of rows under `limit`,
/// a number that fits the row count of a response.
pub open spec fn columns_agree(cols: Seq<Column>, limit: Option<usize>) -> bool {
    &&& forall|i: int, j: int|
        0 <= i < cols.len() && 0 <= j < cols.len() ==> result_column_len(#[trigger] cols[i], limit)
            == result_column_len(#[trigger] cols[j], limit)
    &&& cols.len() > 0 ==> result_column_len(cols[0], limit) <= i32::MAX
}

/// Whether the response column `r` holds the rows of the result column `c`
/// under `limit`.
pub open spec fn column_response_is(r: QueryResultInnerColumnsInner, c: Column, limit: Option<usize>) -> bool {
    match (r, c) {
        (QueryResultInnerColumnsInner::VecOfi64(x), Column::Int64(v)) => x@ == limit_rows(
            int_column_values(v@),
            limit,
        ),
        (QueryResultInnerColumnsInner::VecOfString(x), Column::String(v)) => views(x@)
            == limit_rows(str_column_values(v@), limit),
        _ => false,
    }
}

/// The flattening of `x` splits around its element `i`.
pub proof fn lemma_flatten_split<A>(x: Seq<Seq<A>>, i: int)
    requires
        0 <= i < x.len(),
    ensures
        x.flatten() =~= x.take(i).flatten() + x[i] + x.skip(i + 1).flatten(),
        x.take(i + 1).flatten() =~= x.take(i).flatten() + x[i],
{
    assert(x =~= x.take(i) + (seq![x[i]] + x.skip(i + 1)));
    lemma_flatten_concat(x.take(i), seq![x[i]] + x.skip(i + 1));
    lemma_flatten_concat(seq![x[i]], x.skip(i + 1));
    seq![x[i]].lemma_flatten_singleton();
    assert(x.take(i + 1) =~= x.take(i).push(x[i]));
    x.take(i).lemma_flatten_push(x[i]);
}

proof fn lemma_prefix_take<A>(all: Seq<A>, p: Seq<A>, rest: Seq<A>)
    requires
        all == p + rest,
    ensures
        all.take(p.len() as int) == p,
{
    assert(all.take(p.len() as int) =~= p);
}

/// The rows of an int64 result column under `limit`.
pub fn flatten_int_column(c: &Vec<Vec<Vec<i64>>>, limit: Option<usize>) -> (r: Vec<i64>)
    ensures
        r@ == limit_rows(int_column_values(c@), limit),
{
    let ghost all = int_column_values(c@);
    let ghost m = c@.map_values(|fl: Vec<Vec<i64>>| int_file_values(fl));
    let mut r: Vec<i64> = Vec::new();
    if let Some(l) = limit {
        if l == 0 {
            assert(all.take(0) =~= r@);
            return r;
        }
    }
    let mut i: usize = 0;
    assert(m.take(0).flatten() =~= Seq::<i64>::empty()) by {
        assert(m.take(0) =~= Seq::<Seq<i64>>::empty());
    }
    while i < c.len()
        invariant
            i <= c@.len(),
            m == c@.map_values(|fl: Vec<Vec<i64>>| int_file_values(fl)),
            all == m.flatten(),
            all == int_column_values(c@),
            r@ == m.take(i as int).flatten(),
            limit matches Some(l) ==> r@.len() < l,
        decreases c@.len() - i,
    {
        let file = &c[i];
        let ghost fm = file@.map_values(|c: Vec<i64>| c@);
        proof {
            lemma_flatten_split(m, i as int);
            assert(m[i as int] == fm.flatten());
        }
        let ghost base = m.take(i as int).flatten();
        let mut k: usize = 0;
        assert(fm.take(0).flatten() =~= Seq::<i64>::empty()) by {
            assert(fm.take(0) =~= Seq::<Seq<i64>>::empty());
        }
        assert(base + fm.take(0).flatten() =~= base);
        while k < file.len()
            invariant
                k <= file@.len(),
                fm == file@.map_values(|c: Vec<i64>| c@),
                all == int_column_values(c@),
                all == base + fm.flatten() + m.skip(i + 1).flatten(),
                r@ == base + fm.take(k as int).flatten(),
                limit matches Some(l) ==> r@.len() < l,
            decreases file@.len() - k,
        {
            let chunk = &file[k];
            proof {
                lemma_flatten_split(fm, k as int);
                assert(fm[k as int] == chunk@);
            }
            let ghost base2 = base + fm.take(k as int).flatten();
            let mut j: usize = 0;
            assert(base2 + chunk@.take(0) =~= base2);
            while j < chunk.len()
                invariant
                    j <= chunk@.len(),
                    all == int_column_values(c@),
                    all == base2 + chunk@ + fm.skip(k + 1).flatten() + m.skip(i + 1).flatten(),
                    r@ == base2 + chunk@.take(j as int),
                    limit matches Some(l) ==> r@.len() < l,
                decreases chunk@.len() - j,
            {
                r.push(chunk[j]);
                assert(base2 + chunk@.take(j + 1) =~= r@);
                if let Some(l) = limit {
                    if r.len() == l {
                        proof {
                            assert(all =~= r@ + (chunk@.skip(j + 1) + fm.skip(k + 1).flatten() + m.skip(
                                i + 1,
                            ).flatten()));
                            lemma_prefix_take(all, r@, chunk@.skip(j + 1) + fm.skip(k + 1).flatten()
                                + m.skip(i + 1).flatten());
                            assert(l as int <= all.len());
                            if l as int == all.len() {
                                assert(all.take(l as int) =~= all);
                            }
                        }
                        return r;
                    }
                }
                j += 1;
            }
            assert(chunk@.take(chunk@.len() as int) =~= chunk@);
            k += 1;
        }
        assert(fm.take(fm.len() as int) =~= fm);
        i += 1;
    }
    assert(m.take(m.len() as int) =~= m);
    r
}

/// The rows of a string result column under `limit`.
pub fn flatten_str_column(c: &Vec<Vec<Vec<String>>>, limit: Option<usize>) -> (r: Vec<String>)
    ensures
        views(r@) == limit_rows(str_column_values(c@), limit),
{
    let ghost all = str_column_values(c@);
    let ghost m = c@.map_values(|fl: Vec<Vec<String>>| str_file_values(fl));
    let mut r: Vec<String> = Vec::new();
    if let Some(l) = limit {
        if l == 0 {
            assert(all.take(0) =~= views(r@));
            return r;
        }
    }
    let mut i: usize = 0;
    assert(m.take(0).flatten() =~= Seq::<Seq<char>>::empty()) by {
        assert(m.take(0) =~= Seq::<Seq<Seq<char>>>::empty());
    }
    while i < c.len()
        invariant
            i <= c@.len(),
            m == c@.map_values(|fl: Vec<Vec<String>>| str_file_values(fl)),
            all == m.flatten(),
            all == str_column_values(c@),
            views(r@) == m.take(i as int).flatten(),
            limit matches Some(l) ==> r@.len() < l,
        decreases c@.len() - i,
    {
        let file = &c[i];
        let ghost fm = file@.map_values(|c: Vec<String>| views(c@));
        proof {
            lemma_flatten_split(m, i as int);
            assert(m[i as int] == fm.flatten());
        }
        let ghost base = m.take(i as int).flatten();
        let mut k: usize = 0;
        assert(fm.take(0).flatten() =~= Seq::<Seq<char>>::empty()) by {
            assert(fm.take(0) =~= Seq::<Seq<Seq<char>>>::empty());
        }
        assert(base + fm.take(0).flatten() =~= base);
        while k < file.len()
            invariant
                k <= file@.len(),
                fm == file@.map_values(|c: Vec<String>| views(c@)),
                all == str_column_values(c@),
                all == base + fm.flatten() + m.skip(i + 1).flatten(),
                views(r@) == base + fm.take(k as int).flatten(),
                limit matches Some(l) ==> r@.len() < l,
            decreases file@.len() - k,
        {
            let chunk = &file[k];
            proof {
                lemma_flatten_split(fm, k as int);
                assert(fm[k as int] == views(chunk@));
            }
            let ghost base2 = base + fm.take(k as int).flatten();
            let mut j: usize = 0;
            assert(base2 + views(chunk@).take(0) =~= base2);
            while j < chunk.len()
                invariant
                    j <= chunk@.len(),
                    all == str_column_values(c@),
                    all == base2 + views(chunk@) + fm.skip(k + 1).flatten() + m.skip(i + 1).flatten(),
                    views(r@) == base2 + views(chunk@).take(j as int),
                    limit matches Some(l) ==> r@.len() < l,
                decreases chunk@.len() - j,
            {
                let v = chunk[j].clone();
                assert(views(r@.push(v)) =~= views(r@).push(v@));
                r.push(v);
                assert(base2 + views(chunk@).take(j + 1) =~= views(r@));
                if let Some(l) = limit {
                    if r.len() == l {
                        proof {
                            assert(all =~= views(r@) + (views(chunk@).skip(j + 1) + fm.skip(k + 1).flatten() + m.skip(
                                i + 1,
                            ).flatten()));
                            lemma_prefix_take(all, views(r@), views(chunk@).skip(j + 1) + fm.skip(k + 1).flatten()
                                + m.skip(i + 1).flatten());
                            assert(l as int <= all.len());
                            if l as int == all.len() {
                                assert(all.take(l as int) =~= all);
                            }
                        }
                        return r;
                    }
                }
                j += 1;
            }
            assert(views(chunk@).take(chunk@.len() as int) =~= views(chunk@));
            k += 1;
        }
        assert(fm.take(fm.len() as int) =~= fm);
        i += 1;
    }
    assert(m.take(m.len() as int) =~= m);
    r
}

/// Whether `r` is the response to the result `result` under `limit`: one
/// entry, with the row count and the rows of each column.
pub open spec fn result_response_is(
    r: Seq<QueryResultInner>,
    result: QueryResult,
    limit: Option<usize>,
) -> bool {
    &&& r.len() == 1
    &&& match result {
        QueryResult::Copy => r[0].row_count == Some(0i32) && (r[0].columns matches Some(c)
            && c@.len() == 0),
        QueryResult::Select(cols) => {
            &&& r[0].row_count == Some(
                (if cols@.len() == 0 {
                    0
                } else {
                    result_column_len(cols@[0], limit)
                }) as i32,
            )
            &&& r[0].columns matches Some(c) && c@.len() == cols@.len() && forall|k: int|
                0 <= k < c@.len() ==> column_response_is(#[trigger] c@[k], cols@[k], limit)
        },
    }
}

/// Turns the result of a completed query into the response rows: nothing
/// for a COPY; for a SELECT, each column's rows file after file and chunk
/// after chunk, cut to `row_limit` rows, and their common number.
pub fn query_result_to_response(result: &QueryResult, row_limit: Option<usize>) -> (r: Vec<
    QueryResultInner,
>)
    requires
        result matches QueryResult::Select(cols) ==> columns_agree(cols@, row_limit),
    ensures
        result_response_is(r@, *result, row_limit),
{
    let response = match result {
        QueryResult::Copy => QueryResultInner { row_count: Some(0), columns: Some(Vec::new()) },
        QueryResult::Select(columns) => {
            let cols: &Vec<Column> = &**columns;
            let mut row_count: Option<usize> = None;
            let mut out: Vec<QueryResultInnerColumnsInner> = Vec::new();
            let mut i: usize = 0;
            while i < cols.len()
                invariant
                    i <= cols@.len(),
                    columns_agree(cols@, row_limit),
                    out@.len() == i,
                    forall|k: int|
                        0 <= k < i ==> column_response_is(#[trigger] out@[k], cols@[k], row_limit),
                    i == 0 ==> row_count is None,
                    i > 0 ==> row_count == Some(result_column_len(cols@[0], row_limit) as usize),
                decreases cols@.len() - i,
            {
                let (column, len) = match &cols[i] {
                    Column::String(c) => {
                        let v = flatten_str_column(c, row_limit);
                        let n = v.len();
                        (QueryResultInnerColumnsInner::VecOfString(v), n)
                    },
                    Column::Int64(c) => {
                        let v = flatten_int_column(c, row_limit);
                        let n = v.len();
                        (QueryResultInnerColumnsInner::VecOfi64(v), n)
                    },
                };
                assert(len == result_column_len(cols@[i as int], row_limit));
                assert(result_column_len(cols@[i as int], row_limit) == result_column_len(
                    cols@[0],
                    row_limit,
                ));
                row_count = Some(len);
                out.push(column);
                i += 1;
            }
            let count: i32 = match row_count {
                Some(n) => n as i32,
                None => 0,
            };
            QueryResultInner { row_count: Some(count), columns: Some(out) }
        },
    };
    let mut r: Vec<QueryResultInner> = Vec::new();
    r.push(response);
    r
}

/// `n` capped at `2^31`.
pub open spec fn capped(n: nat) -> nat {
    if n > 0x8000_0000 {
        0x8000_0000
    } else {
        n
    }
}

/// The number of rows of a result column under `limit`, capped at `2^31`.
fn capped_column_len(c: &Column, limit: Option<usize>) -> (r: u64)
    ensures
        r == capped(result_column_len(*c, limit)),
{
    let mut n: u64 = 0;
    match c {
        Column::Int64(v) => {
            let ghost m = v@.map_values(|fl: Vec<Vec<i64>>| int_file_values(fl));
            let mut i: usize = 0;
            assert(m.take(0).flatten() =~= Seq::<i64>::empty()) by {
                assert(m.take(0) =~= Seq::<Seq<i64>>::empty());
            }
            while i < v.len()
                invariant
                    i <= v@.len(),
                    m == v@.map_values(|fl: Vec<Vec<i64>>| int_file_values(fl)),
                    n == capped(m.take(i as int).flatten().len()),
                decreases v@.len() - i,
            {
                let file = &v[i];
                let ghost fm = file@.map_values(|c: Vec<i64>| c@);
                proof {
                    lemma_flatten_split(m, i as int);
                    assert(m[i as int] == fm.flatten());
                }
                let ghost base = m.take(i as int).flatten();
                let mut k: usize = 0;
                assert(fm.take(0).flatten() =~= Seq::<i64>::empty()) by {
                    assert(fm.take(0) =~= Seq::<Seq<i64>>::empty());
                }
                while k < file.len()
                    invariant
                        k <= file@.len(),
                        fm == file@.map_values(|c: Vec<i64>| c@),
                        n == capped(base.len() + fm.take(k as int).flatten().len()),
                    decreases file@.len() - k,
                {
                    proof {
                        lemma_flatten_split(fm, k as int);
                    }
                    let l = file[k].len() as u64;
                    assert(fm[k as int].len() == l);
                    n = if n >= 0x8000_0000 || l >= 0x8000_0000 - n {
                        0x8000_0000
                    } else {
                        n + l
                    };
                    k += 1;
                }
                assert(fm.take(fm.len() as int) =~= fm);
                i += 1;
            }
            assert(m.take(m.len() as int) =~= m);
        },
        Column::String(v) => {
            let ghost m = v@.map_values(|fl: Vec<Vec<String>>| str_file_values(fl));
            let mut i: usize = 0;
            assert(m.take(0).flatten() =~= Seq::<Seq<char>>::empty()) by {
                assert(m.take(0) =~= Seq::<Seq<Seq<char>>>::empty());
            }
            while i < v.len()
                invariant
                    i <= v@.len(),
                    m == v@.map_values(|fl: Vec<Vec<String>>| str_file_values(fl)),
                    n == capped(m.take(i as int).flatten().len()),
                decreases v@.len() - i,
            {
                let file = &v[i];
                let ghost fm = file@.map_values(|c: Vec<String>| views(c@));
                proof {
                    lemma_flatten_split(m, i as int);
                    assert(m[i as int] == fm.flatten());
                }
                let ghost base = m.take(i as int).flatten();
                let mut k: usize = 0;
                assert(fm.take(0).flatten() =~= Seq::<Seq<char>>::empty()) by {
                    assert(fm.take(0) =~= Seq::<Seq<Seq<char>>>::empty());
                }
                while k < file.len()
                    invariant
                        k <= file@.len(),
                        fm == file@.map_values(|c: Vec<String>| views(c@)),
                        n == capped(base.len() + fm.take(k as int).flatten().len()),
                    decreases file@.len() - k,
                {
                    proof {
                        lemma_flatten_split(fm, k as int);
                    }
                    let l = file[k].len() as u64;
                    assert(fm[k as int].len() == l);
                    n = if n >= 0x8000_0000 || l >= 0x8000_0000 - n {
                        0x8000_0000
                    } else {
                        n + l
                    };
                    k += 1;
                }
                assert(fm.take(fm.len() as int) =~= fm);
                i += 1;
            }
            assert(m.take(m.len() as int) =~= m);
        },
    }
    match limit {
        Some(l) => if (l as u64) < n {
            l as u64
        } else {
            n
        },
        None => n,
    }
}

/// Whether the columns of a SELECT result agree in their number of rows under
/// `row_limit`, as [`query_result_to_response`] needs.
pub fn result_columns_agree(cols: &Vec<Column>, row_limit: Option<usize>) -> (r: bool)
    ensures
        r == columns_agree(cols@, row_limit),
{
    if cols.len() == 0 {
        return true;
    }
    let first = capped_column_len(&cols[0], row_limit);
    if first > 0x7fff_ffff {
        return false;
    }
    let mut i: usize = 1;
    while i < cols.len()
        invariant
            1 <= i <= cols@.len(),
            first == capped(result_column_len(cols@[0], row_limit)),
            first <= 0x7fff_ffff,
            forall|k: int| 0 <= k < i ==> result_column_len(#[trigger] cols@[k], row_limit)
                == result_column_len(cols@[0], row_limit),
        decreases cols@.len() - i,
    {
        if capped_column_len(&cols[i], row_limit) != first {
            return false;
        }
        i += 1;
    }
    true
}

/// `list` joined with `sep` between consecutive elements.
pub open spec fn seq_join(list: Seq<Seq<char>>, sep: Seq<char>) -> Seq<char>
    decreases list.len(),
{
    if list.len() == 0 {
        seq![]
    } else if list.len() == 1 {
        list[0]
    } else {
        seq_join(list.drop_last(), sep) + sep + list.last()
    }
}

/// Joins `list` with `sep` between consecutive elements.
pub fn join_strings(list: &Vec<String>, sep: &str) -> (r: String)
    ensures
        r@ == seq_join(views(list@), sep@),
{
    let mut r = String::new();
    let ghost v = views(list@);
    let mut i: usize = 0;
    while i < list.len()
        invariant
            i <= list@.len(),
            v == views(list@),
            r@ == seq_join(v.take(i as int), sep@),
        decreases list@.len() - i,
    {
        assert(v.take(i + 1).drop_last() =~= v.take(i as int));
        if i != 0 {
            r.append(sep);
        } else {
            assert(v.take(1) =~= seq![v[0]]);
        }
        r.append(list[i].as_str());
        i += 1;
    }
    assert(v.take(list@.len() as int) =~= v);
    r
}

/// Whether `p` is the problem `error` about `context`.
pub open spec fn problem_is(p: MultipleProblemsErrorProblemsInner, error: Seq<char>, context: Seq<char>) -> bool {
    &&& p.error@ == error
    &&& p.context matches Some(c) && c@ == context
}

/// Whether `e` holds exactly the one problem `error` about `context`.
pub open spec fn single_problem(e: MultipleProblemsError, error: Seq<char>, context: Seq<char>) -> bool {
    e.problems@.len() == 1 && problem_is(e.problems@[0], error, context)
}

fn one_problem(error: String, context: String) -> (r: MultipleProblemsError)
    ensures
        single_problem(r, error@, context@),
{
    let mut problems: Vec<MultipleProblemsErrorProblemsInner> = Vec::new();
    problems.push(MultipleProblemsErrorProblemsInner { error, context: Some(context) });
    MultipleProblemsError { problems }
}

/// Whether `r` is what the client is told of the refused schema change
/// `err`: one problem per cause, about the table; nothing for failures that
/// are not the client's.
pub open spec fn schema_problems_are(err: SchemaError, r: Option<MultipleProblemsError>) -> bool {
    match err {
        SchemaError::TableExists(name) => r matches Some(e) && single_problem(
            e,
            "table exists"@,
            name@,
        ),
        SchemaError::UnknownTable(name) => r matches Some(e) && single_problem(
            e,
            "unknown table"@,
            name@,
        ),
        SchemaError::TableError(TableError::InvalidTableName(name)) => r matches Some(e)
            && single_problem(e, "invalid table name"@, name@),
        SchemaError::TableError(TableError::InvalidColumnName(table, names)) => r matches Some(e)
            && single_problem(
            e,
            "invalid column name(s)"@ + seq_join(views(names@), ", "@),
            table@,
        ),
        SchemaError::TableError(TableError::NoColumns(name)) => r matches Some(e)
            && single_problem(e, "cannot create table without columns"@, name@),
        SchemaError::TableError(TableError::DuplicatedColumns(name, columns)) => r matches Some(
            e,
        ) && e.problems@.len() == columns@.len() && forall|k: int|
            0 <= k < columns@.len() ==> problem_is(
                #[trigger] e.problems@[k],
                "duplicated column: "@ + columns@[k]@,
                name@,
            ),
        SchemaError::SerdeError(_) => r is None,
        SchemaError::IoError(_, _) => r is None,
    }
}

/// The problems reported to the client for a refused schema change; `None`
/// for failures that are not the client's (JSON and file errors).
pub fn schema_error_to_model_problems(err: SchemaError) -> (r: Option<MultipleProblemsError>)
    ensures
        schema_problems_are(err, r),
{
    match err {
        SchemaError::TableExists(name) => Some(one_problem(String::from_str("table exists"), name)),
        SchemaError::UnknownTable(name) => Some(one_problem(String::from_str("unknown table"), name)),
        SchemaError::TableError(TableError::InvalidTableName(name)) => Some(
            one_problem(String::from_str("invalid table name"), name),
        ),
        SchemaError::TableError(TableError::InvalidColumnName(table, names)) => {
            let mut error = String::from_str("invalid column name(s)");
            let joined = join_strings(&names, ", ");
            error.append(joined.as_str());
            Some(one_problem(error, table))
        },
        SchemaError::TableError(TableError::NoColumns(name)) => Some(
            one_problem(String::from_str("cannot create table without columns"), name),
        ),
        SchemaError::TableError(TableError::DuplicatedColumns(name, columns)) => {
            let mut problems: Vec<MultipleProblemsErrorProblemsInner> = Vec::new();
            let mut i: usize = 0;
            while i < columns.len()
                invariant
                    i <= columns@.len(),
                    problems@.len() == i,
                    forall|k: int|
                        0 <= k < i ==> problem_is(
                            #[trigger] problems@[k],
                            "duplicated column: "@ + columns@[k]@,
                            name@,
                        ),
                decreases columns@.len() - i,
            {
                let mut error = String::from_str("duplicated column: ");
                error.append(columns[i].as_str());
                problems.push(MultipleProblemsErrorProblemsInner { error, context: Some(name.clone()) });
                i += 1;
            }
            Some(MultipleProblemsError { problems })
        },
        SchemaError::SerdeError(_) => None,
        SchemaError::IoError(_, _) => None,
    }
}

fn message(text: &str) -> (e: Error)
    ensures
        e.message@ == text@,
{
    Error { message: String::from_str(text) }
}

/// Whether `q` is the interface's description of query `query_id`, which is
/// `query` in state `marker`; its result is available once it completed.
pub open spec fn query_description_is(
    q: models::Query,
    query_id: Seq<char>,
    query: Query,
    marker: QueryStateMarker,
) -> bool {
    &&& q.query_id@ == query_id
    &&& q.status == status_of(marker)
    &&& q.is_result_available == Some(marker is Completed)
    &&& q.query_definition matches Some(d) && describes(d, query)
}

/// The answer to `GET /query/{queryId}`: `id` is the identifier read from
/// `query_id` (`None` when it is not one) and `state` what the query manager
/// holds under it.
pub fn query_by_id_response(
    query_id: &String,
    id: Option<u128>,
    state: Option<(&Query, &QueryStateMarker)>,
) -> (r: GetQueryByIdResponse)
    ensures
        id is None ==> (r matches GetQueryByIdResponse::Status404(e) && e.message@
            == "not an uuid"@),
        id is Some ==> match state {
            None => r matches GetQueryByIdResponse::Status404(e) && e.message@
                == "no query with this id"@,
            Some((q, m)) => r matches GetQueryByIdResponse::Status200(d) && query_description_is(
                d,
                query_id@,
                *q,
                *m,
            ),
        },
{
    if id.is_none() {
        return GetQueryByIdResponse::Status404(message("not an uuid"));
    }
    match state {
        Some((query, marker)) => {
            let is_result_available = match marker {
                QueryStateMarker::Completed(_) => true,
                _ => false,
            };
            GetQueryByIdResponse::Status200(
                models::Query {
                    query_id: query_id.clone(),
                    status: query_state_marker_to_status(marker),
                    is_result_available: Some(is_result_available),
                    query_definition: Some(manager_query_to_model(query)),
                },
            )
        },
        None => GetQueryByIdResponse::Status404(message("no query with this id")),
    }
}

/// The answer to `GET /error/{queryId}`: the problems of a failed query.
pub fn query_error_response(id: Option<u128>, state: Option<&QueryStateMarker>) -> (r:
    GetQueryErrorResponse)
    ensures
        id is None ==> (r matches GetQueryErrorResponse::Status404(e) && e.message@
            == "not an uuid"@),
        id is Some ==> match state {
            None => r matches GetQueryErrorResponse::Status404(e) && e.message@
                == "no query with this id"@,
            Some(QueryStateMarker::Failed(_)) => r matches GetQueryErrorResponse::Status200(p)
                && p.problems@.len() == 0,
            Some(_) => r matches GetQueryErrorResponse::Status400(e) && e.message@
                == "query did not fail"@,
        },
{
    if id.is_none() {
        return GetQueryErrorResponse::Status404(message("not an uuid"));
    }
    match state {
        Some(marker) => match marker {
            QueryStateMarker::Failed(error) => GetQueryErrorResponse::Status200(
                query_error_to_problems(error),
            ),
            _ => GetQueryErrorResponse::Status400(message("query did not fail")),
        },
        None => GetQueryErrorResponse::Status404(message("no query with this id")),
    }
}

/// The row limit of `GET /result/{queryId}`: none without a request body or
/// limit; a negative limit gives no rows.
pub fn requested_row_limit(body: &Option<models::GetQueryResultRequest>) -> (r: Option<usize>)
    ensures
        match *body {
            Some(b) => match b.row_limit {
                Some(n) => r == Some((if n < 0 {
                    0
                } else {
                    n
                }) as usize),
                None => r is None,
            },
            None => r is None,
        },
{
    match body {
        Some(b) => match b.row_limit {
            Some(n) => if n < 0 {
                Some(0)
            } else {
                Some(n as usize)
            },
            None => None,
        },
        None => None,
    }
}

/// Whether `GET /result/{queryId}` asks to release the result.
pub fn flush_requested(body: &Option<models::GetQueryResultRequest>) -> (r: bool)
    ensures
        r == (body matches Some(b) && b.flush_result == Some(true)),
{
    match body {
        Some(b) => match b.flush_result {
            Some(f) => f,
            None => false,
        },
        None => false,
    }
}

/// The answer to `GET /result/{queryId}`: the rows of a completed query.
pub fn query_result_response(
    id: Option<u128>,
    state: Option<&QueryStateMarker>,
    row_limit: Option<usize>,
) -> (r: GetQueryResultResponse)
    requires
        state matches Some(QueryStateMarker::Completed(QueryResult::Select(cols))) ==> columns_agree(
            cols@,
            row_limit,
        ),
    ensures
        id is None ==> (r matches GetQueryResultResponse::Status400(e) && e.message@
            == "not an uuid"@),
        id is Some ==> match state {
            None => r matches GetQueryResultResponse::Status404(e) && e.message@
                == "no query with this id"@,
            Some(QueryStateMarker::Completed(res)) => r matches GetQueryResultResponse::Status200(
                v,
            ) && result_response_is(v@, *res, row_limit),
            Some(_) => r matches GetQueryResultResponse::Status400(e) && e.message@
                == "query is not completed"@,
        },
{
    if id.is_none() {
        return GetQueryResultResponse::Status400(message("not an uuid"));
    }
    match state {
        Some(marker) => match marker {
            QueryStateMarker::Completed(result) => GetQueryResultResponse::Status200(
                query_result_to_response(result, row_limit),
            ),
            _ => GetQueryResultResponse::Status400(message("query is not completed")),
        },
        None => GetQueryResultResponse::Status404(message("no query with this id")),
    }
}

/// The answer to `POST /query` once the query was submitted under `id`.
pub fn submit_query_response(id: u128) -> (r: SubmitQueryResponse)
    ensures
        r matches SubmitQueryResponse::Status200(s) && s@ == uuid_text(id),
{
    SubmitQueryResponse::Status200(format_query_id(id))
}

/// The answer to `GET /queries`: each query's identifier and status.
pub fn queries_response(list: &Vec<(u128, QueryStateMarker)>) -> (r: GetQueriesResponse)
    ensures
        r matches GetQueriesResponse::Status200(v) && v@.len() == list@.len() && forall|i: int|
            0 <= i < v@.len() ==> (#[trigger] v@[i]).query_id@ == uuid_text(list@[i].0)
                && v@[i].status == status_of(list@[i].1),
{
    let mut v: Vec<ShallowQuery> = Vec::new();
    let mut i: usize = 0;
    while i < list.len()
        invariant
            i <= list@.len(),
            v@.len() == i,
            forall|k: int|
                0 <= k < i ==> (#[trigger] v@[k]).query_id@ == uuid_text(list@[k].0)
                    && v@[k].status == status_of(list@[k].1),
        decreases list@.len() - i,
    {
        let (id, marker) = &list[i];
        v.push(
            ShallowQuery {
                query_id: format_query_id(*id),
                status: query_state_marker_to_status(marker),
            },
        );
        i += 1;
    }
    GetQueriesResponse::Status200(v)
}

/// The column type of the schema that a logical column type stands for.
pub open spec fn schema_type_of(t: models::LogicalColumnType) -> schema::ColumnType {
    match t {
        models::LogicalColumnType::Int64 => schema::ColumnType::INT64,
        models::LogicalColumnType::Varchar => schema::ColumnType::VARCHAR,
    }
}

/// The logical column type that a column type of the schema stands for.
pub open spec fn logical_type_of(t: schema::ColumnType) -> models::LogicalColumnType {
    match t {
        schema::ColumnType::INT64 => models::LogicalColumnType::Int64,
        schema::ColumnType::VARCHAR => models::LogicalColumnType::Varchar,
    }
}

/// The column definitions of a `PUT /table` request, in order.
pub fn table_definitions(body: &TableSchema) -> (r: Vec<(String, schema::ColumnType)>)
    ensures
        r@.len() == body.columns@.len(),
        forall|i: int|
            0 <= i < r@.len() ==> (#[trigger] r@[i]).0@ == body.columns@[i].name@ && r@[i].1
                == schema_type_of(body.columns@[i].r_type),
{
    let mut r: Vec<(String, schema::ColumnType)> = Vec::new();
    let mut i: usize = 0;
    while i < body.columns.len()
        invariant
            i <= body.columns@.len(),
            r@.len() == i,
            forall|k: int|
                0 <= k < i ==> (#[trigger] r@[k]).0@ == body.columns@[k].name@ && r@[k].1
                    == schema_type_of(body.columns@[k].r_type),
        decreases body.columns@.len() - i,
    {
        let c = &body.columns[i];
        let t = match c.r_type {
            models::LogicalColumnType::Int64 => schema::ColumnType::INT64,
            models::LogicalColumnType::Varchar => schema::ColumnType::VARCHAR,
        };
        r.push((c.name.clone(), t));
        i += 1;
    }
    r
}

/// The answer to `PUT /table` once the schema manager tried to create the
/// table `name`; an error that is not the client's is no answer.
pub fn create_table_response(name: &String, result: Result<(), SchemaError>) -> (r: Result<
    CreateTableResponse,
    ApiError,
>)
    ensures
        result is Ok ==> (r matches Ok(CreateTableResponse::Status200(n)) && n@ == name@),
        result matches Err(e) ==> (e is SerdeError || e is IoError ==> (r matches Err(
            ApiError::UnknownError(m),
        ) && m@ == "unknown error"@)),
        result matches Err(e) ==> (!(e is SerdeError || e is IoError) ==> (r matches Ok(
            CreateTableResponse::Status400(p),
        ) && schema_problems_are(e, Some(p)))),
{
    match result {
        Ok(()) => Ok(CreateTableResponse::Status200(name.clone())),
        Err(err) => match schema_error_to_model_problems(err) {
            Some(problems) => Ok(CreateTableResponse::Status400(problems)),
            None => Err(ApiError::UnknownError(String::from_str("unknown error"))),
        },
    }
}

/// The answer to `DELETE /table/{tableId}` once the schema manager tried to
/// delete the table.
pub fn delete_table_response(result: Result<(), SchemaError>) -> (r: DeleteTableResponse)
    ensures
        result is Ok ==> r is Status200,
        result is Err ==> (r matches DeleteTableResponse::Status404(e) && e.message@
            == "table does not exit"@),
{
    match result {
        Ok(()) => DeleteTableResponse::Status200,
        Err(_) => DeleteTableResponse::Status404(message("table does not exit")),
    }
}

/// Whether `m` describes the table column `c`.
pub open spec fn model_column_is(m: models::Column, c: ColumnView) -> bool {
    m.name@ == c.name && m.r_type == logical_type_of(c.column_type)
}

/// The answer to `GET /table/{tableId}`: `table` is `None` when the schema
/// manager knows no such table, `Some(None)` when it was deleted meanwhile.
pub fn table_by_id_response(table_id: &String, table: Option<Option<&Table>>) -> (r:
    GetTableByIdResponse)
    ensures
        table is None ==> (r matches GetTableByIdResponse::Status404(e) && e.message@
            == "unknown table: "@ + table_id@),
        table matches Some(None) ==> (r matches GetTableByIdResponse::Status404(e) && e.message@
            == "unknown table"@),
        table matches Some(Some(t)) ==> (r matches GetTableByIdResponse::Status200(s) && s.name@
            == table_id@ && s.columns@.len() == t@.columns.len() && forall|i: int|
            0 <= i < s.columns@.len() ==> model_column_is(#[trigger] s.columns@[i], t@.columns[i])),
{
    match table {
        None => {
            let mut m = String::from_str("unknown table: ");
            m.append(table_id.as_str());
            GetTableByIdResponse::Status404(Error { message: m })
        },
        Some(None) => GetTableByIdResponse::Status404(message("unknown table")),
        Some(Some(t)) => {
            let cols = t.columns();
            let mut columns: Vec<models::Column> = Vec::new();
            let mut i: usize = 0;
            while i < cols.len()
                invariant
                    i <= cols@.len(),
                    cols@.map_values(|c: schema::Column| c@) == t@.columns,
                    columns@.len() == i,
                    forall|k: int|
                        0 <= k < i ==> model_column_is(#[trigger] columns@[k], t@.columns[k]),
                decreases cols@.len() - i,
            {
                let c = &cols[i];
                assert(t@.columns[i as int] == c@);
                let r_type = match c.column_type {
                    schema::ColumnType::INT64 => models::LogicalColumnType::Int64,
                    schema::ColumnType::VARCHAR => models::LogicalColumnType::Varchar,
                };
                columns.push(models::Column { name: c.name.clone(), r_type });
                i += 1;
            }
            GetTableByIdResponse::Status200(TableSchema { name: table_id.clone(), columns })
        },
    }
}

/// The answer to `GET /tables`: each table under its name, which is also its
/// identifier.
pub fn tables_response(names: &Vec<String>) -> (r: GetTablesResponse)
    ensures
        r matches GetTablesResponse::Status200(v) && v@.len() == names@.len() && forall|i: int|
            0 <= i < v@.len() ==> (#[trigger] v@[i]).name@ == names@[i]@ && v@[i].table_id is Some
                && v@[i].table_id.unwrap()@ == names@[i]@,
{
    let mut v: Vec<ShallowTable> = Vec::new();
    let mut i: usize = 0;
    while i < names.len()
        invariant
            i <= names@.len(),
            v@.len() == i,
            forall|k: int|
                0 <= k < i ==> (#[trigger] v@[k]).name@ == names@[k]@ && v@[k].table_id is Some
                    && v@[k].table_id.unwrap()@ == names@[k]@,
        decreases names@.len() - i,
    {
        v.push(ShallowTable { table_id: Some(names[i].clone()), name: names[i].clone() });
        i += 1;
    }
    GetTablesResponse::Status200(v)
}

/// The answer to `GET /system/info`; an uptime beyond the range of the
/// model's field is reported as its largest value.
pub fn system_info_response(
    interface_version: String,
    version: String,
    author: String,
    uptime_secs: u64,
) -> (r: GetSystemInfoResponse)
    ensures
        r matches GetSystemInfoResponse::Status200(i) && i.interface_version == Some(
            interface_version,
        ) && i.version == version && i.author == Some(author) && i.uptime == (if uptime_secs
            > i64::MAX {
            i64::MAX as int
        } else {
            uptime_secs as int
        }),
{
    let uptime: i64 = if uptime_secs > i64::MAX as u64 {
        i64::MAX
    } else {
        uptime_secs as i64
    };
    GetSystemInfoResponse::Status200(
        SystemInformation {
            interface_version: Some(interface_version),
            version,
            author: Some(author),
            uptime,
        },
    )
}

/// Describing a query of the query manager as a model and submitting that
/// model gives back the same query.
pub proof fn lemma_query_definition_roundtrip(d: QueryQueryDefinition, q: Query)
    requires
        describes(d, q),
    ensures
        spec_manager_query(d) matches Some(q2) && same_query(q2, q),
{
}

/// The column types of the interface and of the schema stand for each
/// other: `Int64` for `INT64` and `Varchar` for `VARCHAR`, so turning one
/// into the other and back gives it back.
pub proof fn lemma_column_types(t: schema::ColumnType, m: models::LogicalColumnType)
    ensures
        schema_type_of(logical_type_of(t)) == t,
        logical_type_of(schema_type_of(m)) == m,
        logical_type_of(schema::ColumnType::INT64) == models::LogicalColumnType::Int64,
        logical_type_of(schema::ColumnType::VARCHAR) == models::LogicalColumnType::Varchar,
        schema_type_of(models::LogicalColumnType::Int64) == schema::ColumnType::INT64,
        schema_type_of(models::LogicalColumnType::Varchar) == schema::ColumnType::VARCHAR,
{
}

/// A table made from the definitions of a `PUT /table` request is described
/// by `GET /table/{tableId}` with the names and the types it was requested
/// with, column by column.
pub proof fn lemma_described_as_defined(
    body: TableSchema,
    defs: Seq<(String, schema::ColumnType)>,
    table: TableView,
    described: Seq<models::Column>,
)
    requires
        defs.len() == body.columns@.len(),
        forall|i: int|
            0 <= i < defs.len() ==> (#[trigger] defs[i]).0@ == body.columns@[i].name@ && defs[i].1
                == schema_type_of(body.columns@[i].r_type),
        table.columns == schema::new_columns(defs),
        described.len() == table.columns.len(),
        forall|i: int| 0 <= i < described.len() ==> model_column_is(#[trigger] described[i], table.columns[i]),
    ensures
        described.len() == body.columns@.len(),
        forall|i: int|
            0 <= i < described.len() ==> (#[trigger] described[i]).name@ == body.columns@[i].name@
                && described[i].r_type == body.columns@[i].r_type,
{
    assert forall|i: int| 0 <= i < described.len() implies (#[trigger] described[i]).name@
        == body.columns@[i].name@ && described[i].r_type == body.columns@[i].r_type by {
        assert(model_column_is(described[i], table.columns[i]));
        assert(table.columns[i].column_type == defs[i].1);
        lemma_column_types(defs[i].1, body.columns@[i].r_type);
    }
}

/// A submitted COPY reads its CSV file as having a header exactly when the
/// request says `doesCsvContainHeader: true`; a missing flag or `false`
/// means no header. Its source, target and columns are the request's.
pub proof fn lemma_copy_header_flag(c: CopyQuery)
    ensures
        spec_manager_query(QueryQueryDefinition::CopyQuery(c)) matches Some(
            Query::Copy { source, target, columns, contains_header },
        ) && contains_header == (c.does_csv_contain_header == Some(true)) && source
            == c.source_filepath && target == c.destination_table_name && columns
            == c.destination_columns,
        c.does_csv_contain_header == Some(false) ==> spec_manager_query(
            QueryQueryDefinition::CopyQuery(c),
        ) matches Some(Query::Copy { contains_header: false, .. }),
        c.does_csv_contain_header is None ==> spec_manager_query(QueryQueryDefinition::CopyQuery(c))
            matches Some(Query::Copy { contains_header: false, .. }),
{
}

/// Describing a COPY gives its header flag as it is: `Some(true)` for a
/// file with a header and `Some(false)` for one without.
pub proof fn lemma_described_header_flag(d: QueryQueryDefinition, q: Query)
    requires
        describes(d, q),
        q is Copy,
    ensures
        d matches QueryQueryDefinition::CopyQuery(c) && c.does_csv_contain_header == Some(
            q->contains_header,
        ),
        q->contains_header == false ==> (d matches QueryQueryDefinition::CopyQuery(c)
            && c.does_csv_contain_header == Some(false)),
{
}

} // verus!
