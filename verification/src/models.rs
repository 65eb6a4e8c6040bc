//! The values that the HTTP interface exchanges: requests, responses and the
//! descriptions of tables, queries and results.
use vstd::prelude::*;

verus! {

/// Path parameters of `GET /query/{queryId}`.
#[derive(Debug, Clone)]
pub struct GetQueryByIdPathParams {
    /// ID of selected Query
    pub query_id: String,
}

/// Path parameters of `GET /error/{queryId}`.
#[derive(Debug, Clone)]
pub struct GetQueryErrorPathParams {
    /// ID of selected Query
    pub query_id: String,
}

/// Path parameters of `GET /result/{queryId}`.
#[derive(Debug, Clone)]
pub struct GetQueryResultPathParams {
    /// ID of selected Query
    pub query_id: String,
}

/// Path parameters of `DELETE /table/{tableId}`.
#[derive(Debug, Clone)]
pub struct DeleteTablePathParams {
    /// ID of selected Table
    pub table_id: String,
}

/// Path parameters of `GET /table/{tableId}`.
#[derive(Debug, Clone)]
pub struct GetTableByIdPathParams {
    /// ID of selected Table
    pub table_id: String,
}

/// Description of single column in table
#[derive(Debug, Clone)]
pub struct Column {
    pub name: String,
    pub r_type: LogicalColumnType,
}

impl Column {
    pub fn new(name: String, r_type: LogicalColumnType) -> (r: Column)
        ensures
            r.name == name,
            r.r_type == r_type,
    {
        Column { name, r_type }
    }
}

/// Description of the COPY query from CSV file. Server will read the file and
/// insert all data into selected table.
#[derive(Debug, Clone)]
pub struct CopyQuery {
    /// Path to source CSV file (as the server sees it)
    pub source_filepath: String,
    pub destination_table_name: String,
    /// List of columns to copy data into, in the order of the source columns.
    pub destination_columns: Option<Vec<String>>,
    /// Whether CSV file contains header row
    pub does_csv_contain_header: Option<bool>,
}

impl CopyQuery {
    pub fn new(source_filepath: String, destination_table_name: String) -> (r: CopyQuery)
        ensures
            r.source_filepath == source_filepath,
            r.destination_table_name == destination_table_name,
            r.destination_columns is None,
            r.does_csv_contain_header == Some(false),
    {
        CopyQuery {
            source_filepath,
            destination_table_name,
            destination_columns: None,
            does_csv_contain_header: Some(false),
        }
    }
}

/// Generic error object
#[derive(Debug, Clone)]
pub struct Error {
    pub message: String,
}

impl Error {
    pub fn new(message: String) -> (r: Error)
        ensures
            r.message == message,
    {
        Error { message }
    }
}

/// Used to submit a new query for execution
#[derive(Debug, Clone)]
pub struct ExecuteQueryRequest {
    pub query_definition: QueryQueryDefinition,
}

impl ExecuteQueryRequest {
    pub fn new(query_definition: QueryQueryDefinition) -> (r: ExecuteQueryRequest)
        ensures
            r.query_definition == query_definition,
    {
        ExecuteQueryRequest { query_definition }
    }
}

/// Options of `GET /result/{queryId}`.
#[derive(Debug, Clone)]
pub struct GetQueryResultRequest {
    /// Maximum number of rows to return
    pub row_limit: Option<i32>,
    /// Whether the result may be released after this request
    pub flush_result: Option<bool>,
}

impl GetQueryResultRequest {
    pub fn new() -> (r: GetQueryResultRequest)
        ensures
            r.row_limit is None,
            r.flush_result is None,
    {
        GetQueryResultRequest { row_limit: None, flush_result: None }
    }
}

/// Enum describing logical column types
#[derive(Debug, Clone, Copy, PartialEq, Eq, Structural)]
pub enum LogicalColumnType {
    Int64,
    Varchar,
}

/// Error containing multiple problems about request processing.
#[derive(Debug, Clone)]
pub struct MultipleProblemsError {
    pub problems: Vec<MultipleProblemsErrorProblemsInner>,
}

impl MultipleProblemsError {
    pub fn new(problems: Vec<MultipleProblemsErrorProblemsInner>) -> (r: MultipleProblemsError)
        ensures
            r.problems == problems,
    {
        MultipleProblemsError { problems }
    }
}

/// One problem of a request.
#[derive(Debug, Clone)]
pub struct MultipleProblemsErrorProblemsInner {
    /// Description of particular problem
    pub error: String,
    /// Optional context for user (e.g. which column caused the problem).
    pub context: Option<String>,
}

impl MultipleProblemsErrorProblemsInner {
    pub fn new(error: String) -> (r: MultipleProblemsErrorProblemsInner)
        ensures
            r.error == error,
            r.context is None,
    {
        MultipleProblemsErrorProblemsInner { error, context: None }
    }
}

/// Description of a query in the system
#[derive(Debug, Clone)]
pub struct Query {
    /// ID of selected Query
    pub query_id: String,
    pub status: QueryStatus,
    /// Whether result of this query is already available
    pub is_result_available: Option<bool>,
    pub query_definition: Option<QueryQueryDefinition>,
}

impl Query {
    pub fn new(query_id: String, status: QueryStatus) -> (r: Query)
        ensures
            r.query_id == query_id,
            r.status == status,
            r.is_result_available is None,
            r.query_definition is None,
    {
        Query { query_id, status, is_result_available: None, query_definition: None }
    }
}

/// ID of selected Query
#[derive(Debug, Clone)]
pub struct QueryId(pub String);

impl From<String> for QueryId {
    fn from(x: String) -> (r: QueryId) {
        QueryId(x)
    }
}

impl vstd::std_specs::convert::FromSpecImpl<String> for QueryId {
    open spec fn obeys_from_spec() -> bool {
        true
    }

    open spec fn from_spec(x: String) -> QueryId {
        QueryId(x)
    }
}

impl From<QueryId> for String {
    fn from(x: QueryId) -> (r: String) {
        x.0
    }
}

impl vstd::std_specs::convert::FromSpecImpl<QueryId> for String {
    open spec fn obeys_from_spec() -> bool {
        true
    }

    open spec fn from_spec(x: QueryId) -> String {
        x.0
    }
}

/// The definition of a query: a SELECT or a COPY.
#[derive(Debug, Clone)]
pub enum QueryQueryDefinition {
    SelectQuery(SelectQuery),
    CopyQuery(CopyQuery),
}

impl From<SelectQuery> for QueryQueryDefinition {
    fn from(value: SelectQuery) -> (r: QueryQueryDefinition) {
        QueryQueryDefinition::SelectQuery(value)
    }
}

impl vstd::std_specs::convert::FromSpecImpl<SelectQuery> for QueryQueryDefinition {
    open spec fn obeys_from_spec() -> bool {
        true
    }

    open spec fn from_spec(value: SelectQuery) -> QueryQueryDefinition {
        QueryQueryDefinition::SelectQuery(value)
    }
}

impl From<CopyQuery> for QueryQueryDefinition {
    fn from(value: CopyQuery) -> (r: QueryQueryDefinition) {
        QueryQueryDefinition::CopyQuery(value)
    }
}

impl vstd::std_specs::convert::FromSpecImpl<CopyQuery> for QueryQueryDefinition {
    open spec fn obeys_from_spec() -> bool {
        true
    }

    open spec fn from_spec(value: CopyQuery) -> QueryQueryDefinition {
        QueryQueryDefinition::CopyQuery(value)
    }
}

/// One result of a query: its row count and its columns.
#[derive(Debug, Clone)]
pub struct QueryResultInner {
    /// Number of rows in result
    pub row_count: Option<i32>,
    /// Array of columns in result (all of length `row_count`)
    pub columns: Option<Vec<QueryResultInnerColumnsInner>>,
}

impl QueryResultInner {
    pub fn new() -> (r: QueryResultInner)
        ensures
            r.row_count is None,
            r.columns is None,
    {
        QueryResultInner { row_count: None, columns: None }
    }
}

/// One column of a query result.
#[derive(Debug, Clone)]
pub enum QueryResultInnerColumnsInner {
    VecOfi64(Vec<i64>),
    VecOfString(Vec<String>),
}

impl From<Vec<i64>> for QueryResultInnerColumnsInner {
    fn from(value: Vec<i64>) -> (r: QueryResultInnerColumnsInner) {
        QueryResultInnerColumnsInner::VecOfi64(value)
    }
}

impl vstd::std_specs::convert::FromSpecImpl<Vec<i64>> for QueryResultInnerColumnsInner {
    open spec fn obeys_from_spec() -> bool {
        true
    }

    open spec fn from_spec(value: Vec<i64>) -> QueryResultInnerColumnsInner {
        QueryResultInnerColumnsInner::VecOfi64(value)
    }
}

impl From<Vec<String>> for QueryResultInnerColumnsInner {
    fn from(value: Vec<String>) -> (r: QueryResultInnerColumnsInner) {
        QueryResultInnerColumnsInner::VecOfString(value)
    }
}

impl vstd::std_specs::convert::FromSpecImpl<Vec<String>> for QueryResultInnerColumnsInner {
    open spec fn obeys_from_spec() -> bool {
        true
    }

    open spec fn from_spec(value: Vec<String>) -> QueryResultInnerColumnsInner {
        QueryResultInnerColumnsInner::VecOfString(value)
    }
}

/// Enum describing possible query statuses
#[derive(Debug, Clone, Copy, PartialEq, Eq, Structural)]
pub enum QueryStatus {
    Created,
    Planning,
    Running,
    Completed,
    Failed,
}

/// Description of a select query
#[derive(Debug, Clone)]
pub struct SelectQuery {
    pub table_name: Option<String>,
}

impl SelectQuery {
    pub fn new() -> (r: SelectQuery)
        ensures
            r.table_name is None,
    {
        SelectQuery { table_name: None }
    }
}

/// Description of a shallow representation of a query
#[derive(Debug, Clone)]
pub struct ShallowQuery {
    /// ID of selected Query
    pub query_id: String,
    pub status: QueryStatus,
}

impl ShallowQuery {
    pub fn new(query_id: String, status: QueryStatus) -> (r: ShallowQuery)
        ensures
            r.query_id == query_id,
            r.status == status,
    {
        ShallowQuery { query_id, status }
    }
}

/// Description of a shallow representation of a table (without columns)
#[derive(Debug, Clone)]
pub struct ShallowTable {
    /// ID of selected Table
    pub table_id: Option<String>,
    pub name: String,
}

impl ShallowTable {
    pub fn new(name: String) -> (r: ShallowTable)
        ensures
            r.table_id is None,
            r.name == name,
    {
        ShallowTable { table_id: None, name }
    }
}

/// Basic information about the system
#[derive(Debug, Clone)]
pub struct SystemInformation {
    /// Version of the DBMS interface
    pub interface_version: Option<String>,
    /// Version of the DBMS system
    pub version: String,
    /// Author of the DBMS system
    pub author: Option<String>,
    /// System uptime in seconds
    pub uptime: i64,
}

impl SystemInformation {
    pub fn new(version: String, uptime: i64) -> (r: SystemInformation)
        ensures
            r.interface_version is None,
            r.version == version,
            r.author is None,
            r.uptime == uptime,
    {
        SystemInformation { interface_version: None, version, author: None, uptime }
    }
}

/// ID of selected Table
#[derive(Debug, Clone)]
pub struct TableId(pub String);

impl From<String> for TableId {
    fn from(x: String) -> (r: TableId) {
        TableId(x)
    }
}

impl vstd::std_specs::convert::FromSpecImpl<String> for TableId {
    open spec fn obeys_from_spec() -> bool {
        true
    }

    open spec fn from_spec(x: String) -> TableId {
        TableId(x)
    }
}

impl From<TableId> for String {
    fn from(x: TableId) -> (r: String) {
        x.0
    }
}

impl vstd::std_specs::convert::FromSpecImpl<TableId> for String {
    open spec fn obeys_from_spec() -> bool {
        true
    }

    open spec fn from_spec(x: TableId) -> String {
        x.0
    }
}

/// Description of the table in the database
#[derive(Debug, Clone)]
pub struct TableSchema {
    pub name: String,
    pub columns: Vec<Column>,
}

impl TableSchema {
    pub fn new(name: String, columns: Vec<Column>) -> (r: TableSchema)
        ensures
            r.name == name,
            r.columns == columns,
    {
        TableSchema { name, columns }
    }
}

} // verus!
