use std::sync::Arc;

use database::api::{
    create_table_response, delete_table_response, flush_requested, join_strings, manager_query_to_model,
    model_query_to_manager_query, queries_response, query_by_id_response, query_error_response,
    query_result_response, query_result_to_response, query_state_marker_to_status, requested_row_limit,
    result_columns_agree, schema_error_to_model_problems, submit_query_response, system_info_response,
    table_by_id_response, table_definitions, tables_response, ApiError, CreateTableResponse,
    DeleteTableResponse, GetQueriesResponse, GetQueryByIdResponse, GetQueryErrorResponse,
    GetQueryResultResponse, GetSystemInfoResponse, GetTableByIdResponse, GetTablesResponse, SchemaError,
    SubmitQueryResponse,
};
use database::models::{
    Column as ModelColumn, CopyQuery, GetQueryResultRequest, LogicalColumnType, QueryQueryDefinition,
    QueryResultInnerColumnsInner, QueryStatus, SelectQuery, TableSchema,
};
use database::query::{Column, Query, QueryError, QueryResult, QueryStateMarker};
use database::query_id::{format_query_id, parse_query_id};
use database::schema::{ColumnType, Table, TableError};

const ID: u128 = 0x67e5_5044_10b1_426f_9247_bb68_0e5f_e0c8;
const ID_TEXT: &str = "67e55044-10b1-426f-9247-bb680e5fe0c8";

fn select_result() -> QueryResult {
    QueryResult::Select(Arc::new(vec![
        Column::Int64(vec![vec![vec![1, 2], vec![3]], vec![vec![4]]]),
        Column::String(vec![vec![vec!["a".into()], vec!["b".into(), "c".into()]], vec![vec!["d".into()]]]),
    ]))
}

#[test]
fn query_ids() {
    assert_eq!(format_query_id(ID), ID_TEXT);
    assert_eq!(parse_query_id(ID_TEXT), Some(ID));
    assert_eq!(parse_query_id(&format_query_id(7)), Some(7));
    assert_eq!(parse_query_id("not an id"), None);
    assert_eq!(format_query_id(0), "00000000-0000-0000-0000-000000000000");
}

#[test]
fn statuses() {
    assert_eq!(query_state_marker_to_status(&QueryStateMarker::Created), QueryStatus::Created);
    assert_eq!(query_state_marker_to_status(&QueryStateMarker::Planning), QueryStatus::Planning);
    assert_eq!(query_state_marker_to_status(&QueryStateMarker::Running), QueryStatus::Running);
    assert_eq!(query_state_marker_to_status(&QueryStateMarker::Completed(QueryResult::Copy)), QueryStatus::Completed);
    assert_eq!(query_state_marker_to_status(&QueryStateMarker::Failed(QueryError::TableDeleted)), QueryStatus::Failed);
}

#[test]
fn query_definitions_roundtrip() {
    let copy = Query::Copy { source: "/x.csv".into(), target: "t".into(), columns: Some(vec!["a".into()]), contains_header: true };
    match manager_query_to_model(&copy) {
        QueryQueryDefinition::CopyQuery(c) => {
            assert_eq!(c.source_filepath, "/x.csv");
            assert_eq!(c.destination_table_name, "t");
            assert_eq!(c.destination_columns, Some(vec!["a".to_string()]));
            assert_eq!(c.does_csv_contain_header, Some(true));
            match model_query_to_manager_query(QueryQueryDefinition::CopyQuery(c)).unwrap() {
                Query::Copy { source, target, columns, contains_header } => {
                    assert_eq!((source.as_str(), target.as_str(), contains_header), ("/x.csv", "t", true));
                    assert_eq!(columns, Some(vec!["a".to_string()]));
                }
                _ => panic!("not a copy"),
            }
        }
        _ => panic!("not a copy"),
    }
    let sel = manager_query_to_model(&Query::Select { table: "t".into() });
    assert!(matches!(&sel, QueryQueryDefinition::SelectQuery(s) if s.table_name.as_deref() == Some("t")));
    assert!(matches!(model_query_to_manager_query(sel), Ok(Query::Select { table }) if table == "t"));
}

#[test]
fn submitted_definitions() {
    let c = CopyQuery { does_csv_contain_header: None, ..CopyQuery::new("f".into(), "t".into()) };
    assert!(matches!(
        model_query_to_manager_query(QueryQueryDefinition::CopyQuery(c)),
        Ok(Query::Copy { contains_header: false, columns: None, .. })
    ));
    match model_query_to_manager_query(QueryQueryDefinition::SelectQuery(SelectQuery::new())) {
        Err(e) => assert_eq!(e.problems.len(), 1),
        Ok(_) => panic!("a select without a table was accepted"),
    }
}

#[test]
fn result_rows() {
    let r = query_result_to_response(&select_result(), None);
    assert_eq!(r.len(), 1);
    assert_eq!(r[0].row_count, Some(4));
    let cols = r[0].columns.as_ref().unwrap();
    assert!(matches!(&cols[0], QueryResultInnerColumnsInner::VecOfi64(v) if v == &vec![1, 2, 3, 4]));
    assert!(matches!(&cols[1], QueryResultInnerColumnsInner::VecOfString(v) if v == &vec!["a", "b", "c", "d"]));

    let r = query_result_to_response(&select_result(), Some(2));
    assert_eq!(r[0].row_count, Some(2));
    let cols = r[0].columns.as_ref().unwrap();
    assert!(matches!(&cols[0], QueryResultInnerColumnsInner::VecOfi64(v) if v == &vec![1, 2]));
    assert!(matches!(&cols[1], QueryResultInnerColumnsInner::VecOfString(v) if v == &vec!["a", "b"]));

    let r = query_result_to_response(&select_result(), Some(0));
    assert_eq!(r[0].row_count, Some(0));

    let r = query_result_to_response(&QueryResult::Copy, Some(3));
    assert_eq!(r[0].row_count, Some(0));
    assert!(r[0].columns.as_ref().unwrap().is_empty());

    let r = query_result_to_response(&QueryResult::Select(Arc::new(vec![])), None);
    assert_eq!(r[0].row_count, Some(0));
    assert!(result_columns_agree(&vec![], None));
}

#[test]
fn uneven_columns_are_detected() {
    let cols = vec![Column::Int64(vec![vec![vec![1, 2]]]), Column::Int64(vec![vec![vec![1]]])];
    assert!(!result_columns_agree(&cols, None));
    assert!(result_columns_agree(&cols, Some(1)));
    if let QueryResult::Select(c) = select_result() {
        assert!(result_columns_agree(&c, None));
    }
}

#[test]
fn schema_problems() {
    let one = |e: SchemaError| {
        let p = schema_error_to_model_problems(e).unwrap().problems;
        assert_eq!(p.len(), 1);
        (p[0].error.clone(), p[0].context.clone().unwrap())
    };
    assert_eq!(one(SchemaError::TableExists("t".into())), ("table exists".to_string(), "t".to_string()));
    assert_eq!(one(SchemaError::UnknownTable("t".into())), ("unknown table".to_string(), "t".to_string()));
    assert_eq!(
        one(SchemaError::TableError(TableError::InvalidTableName("9".into()))),
        ("invalid table name".to_string(), "9".to_string())
    );
    assert_eq!(
        one(SchemaError::TableError(TableError::InvalidColumnName("t".into(), vec!["1a".into(), "b-".into()]))),
        ("invalid column name(s)1a, b-".to_string(), "t".to_string())
    );
    assert_eq!(
        one(SchemaError::TableError(TableError::NoColumns("t".into()))),
        ("cannot create table without columns".to_string(), "t".to_string())
    );
    let dup = schema_error_to_model_problems(SchemaError::TableError(TableError::DuplicatedColumns(
        "t".into(),
        vec!["a".into(), "b".into()],
    )))
    .unwrap()
    .problems;
    assert_eq!(dup.len(), 2);
    assert_eq!(dup[1].error, "duplicated column: b");
    assert_eq!(dup[1].context.as_deref(), Some("t"));
    assert!(schema_error_to_model_problems(SchemaError::SerdeError("x".into())).is_none());
    assert!(schema_error_to_model_problems(SchemaError::IoError("x".into(), std::io::Error::other("y"))).is_none());
}

#[test]
fn joining() {
    assert_eq!(join_strings(&vec![], ", "), "");
    assert_eq!(join_strings(&vec!["a".into()], ", "), "a");
    assert_eq!(join_strings(&vec!["a".into(), "b".into(), "c".into()], "-"), "a-b-c");
}

#[test]
fn query_by_id_answers() {
    let q = Query::Select { table: "t".into() };
    let m = QueryStateMarker::Failed(QueryError::ExecuteError);
    match query_by_id_response(&ID_TEXT.to_string(), Some(ID), Some((&q, &m))) {
        GetQueryByIdResponse::Status200(d) => {
            assert_eq!(d.query_id, ID_TEXT);
            assert_eq!(d.status, QueryStatus::Failed);
            assert_eq!(d.is_result_available, Some(false));
            assert!(matches!(d.query_definition, Some(QueryQueryDefinition::SelectQuery(_))));
        }
        other => panic!("unexpected {:?}", other),
    }
    let running = QueryStateMarker::Running;
    match query_by_id_response(&ID_TEXT.to_string(), Some(ID), Some((&q, &running))) {
        GetQueryByIdResponse::Status200(d) => assert_eq!(d.is_result_available, Some(false)),
        other => panic!("unexpected {:?}", other),
    }
    let done = QueryStateMarker::Completed(QueryResult::Copy);
    match query_by_id_response(&ID_TEXT.to_string(), Some(ID), Some((&q, &done))) {
        GetQueryByIdResponse::Status200(d) => assert_eq!(d.is_result_available, Some(true)),
        other => panic!("unexpected {:?}", other),
    }
    assert!(matches!(query_by_id_response(&"x".into(), None, None), GetQueryByIdResponse::Status404(e) if e.message == "not an uuid"));
    assert!(matches!(query_by_id_response(&ID_TEXT.into(), Some(ID), None), GetQueryByIdResponse::Status404(e) if e.message == "no query with this id"));
}

#[test]
fn query_error_answers() {
    let failed = QueryStateMarker::Failed(QueryError::TableDeleted);
    assert!(matches!(query_error_response(Some(ID), Some(&failed)), GetQueryErrorResponse::Status200(p) if p.problems.is_empty()));
    assert!(matches!(query_error_response(Some(ID), Some(&QueryStateMarker::Created)), GetQueryErrorResponse::Status400(e) if e.message == "query did not fail"));
    assert!(matches!(query_error_response(Some(ID), None), GetQueryErrorResponse::Status404(e) if e.message == "no query with this id"));
    assert!(matches!(query_error_response(None, Some(&failed)), GetQueryErrorResponse::Status404(e) if e.message == "not an uuid"));
}

#[test]
fn query_result_answers() {
    let done = QueryStateMarker::Completed(select_result());
    match query_result_response(Some(ID), Some(&done), Some(3)) {
        GetQueryResultResponse::Status200(v) => assert_eq!(v[0].row_count, Some(3)),
        other => panic!("unexpected {:?}", other),
    }
    assert!(matches!(query_result_response(Some(ID), Some(&QueryStateMarker::Planning), None), GetQueryResultResponse::Status400(e) if e.message == "query is not completed"));
    assert!(matches!(query_result_response(Some(ID), None, None), GetQueryResultResponse::Status404(e) if e.message == "no query with this id"));
    assert!(matches!(query_result_response(None, Some(&done), None), GetQueryResultResponse::Status400(e) if e.message == "not an uuid"));
}

#[test]
fn result_request_options() {
    assert_eq!(requested_row_limit(&None), None);
    assert_eq!(requested_row_limit(&Some(GetQueryResultRequest::new())), None);
    let mut b = GetQueryResultRequest::new();
    b.row_limit = Some(5);
    assert_eq!(requested_row_limit(&Some(b.clone())), Some(5));
    b.row_limit = Some(-5);
    assert_eq!(requested_row_limit(&Some(b.clone())), Some(0));
    assert!(!flush_requested(&Some(b.clone())));
    b.flush_result = Some(true);
    assert!(flush_requested(&Some(b.clone())));
    b.flush_result = Some(false);
    assert!(!flush_requested(&Some(b)));
    assert!(!flush_requested(&None));
}

#[test]
fn query_lists() {
    assert!(matches!(submit_query_response(ID), SubmitQueryResponse::Status200(s) if s == ID_TEXT));
    let list = vec![(ID, QueryStateMarker::Running), (1, QueryStateMarker::Created)];
    match queries_response(&list) {
        GetQueriesResponse::Status200(v) => {
            assert_eq!(v.len(), 2);
            assert_eq!(v[0].query_id, ID_TEXT);
            assert_eq!(v[0].status, QueryStatus::Running);
            assert_eq!(v[1].query_id, "00000000-0000-0000-0000-000000000001");
            assert_eq!(v[1].status, QueryStatus::Created);
        }
    }
}

#[test]
fn table_answers() {
    let body = TableSchema::new(
        "t".into(),
        vec![ModelColumn::new("a".into(), LogicalColumnType::Int64), ModelColumn::new("b".into(), LogicalColumnType::Varchar)],
    );
    let defs = table_definitions(&body);
    assert_eq!(defs, vec![("a".to_string(), ColumnType::INT64), ("b".to_string(), ColumnType::VARCHAR)]);
    let table = Table::new("t".into(), &defs).unwrap();
    match table_by_id_response(&"t".into(), Some(Some(&table))) {
        GetTableByIdResponse::Status200(s) => {
            assert_eq!(s.name, "t");
            assert_eq!(s.columns.len(), 2);
            assert_eq!(s.columns[1].name, "b");
            assert_eq!(s.columns[1].r_type, LogicalColumnType::Varchar);
        }
        other => panic!("unexpected {:?}", other),
    }
    assert!(matches!(table_by_id_response(&"u".into(), None), GetTableByIdResponse::Status404(e) if e.message == "unknown table: u"));
    assert!(matches!(table_by_id_response(&"u".into(), Some(None)), GetTableByIdResponse::Status404(e) if e.message == "unknown table"));

    assert!(matches!(create_table_response(&"t".into(), Ok(())), Ok(CreateTableResponse::Status200(n)) if n == "t"));
    assert!(matches!(
        create_table_response(&"t".into(), Err(SchemaError::TableExists("t".into()))),
        Ok(CreateTableResponse::Status400(p)) if p.problems[0].error == "table exists"
    ));
    assert!(matches!(
        create_table_response(&"t".into(), Err(SchemaError::SerdeError("x".into()))),
        Err(ApiError::UnknownError(m)) if m == "unknown error"
    ));
    assert!(matches!(delete_table_response(Ok(())), DeleteTableResponse::Status200));
    assert!(matches!(delete_table_response(Err(SchemaError::UnknownTable("t".into()))), DeleteTableResponse::Status404(e) if e.message == "table does not exit"));

    match tables_response(&vec!["x".into(), "y".into()]) {
        GetTablesResponse::Status200(v) => {
            assert_eq!(v.len(), 2);
            assert_eq!(v[1].name, "y");
            assert_eq!(v[1].table_id.as_deref(), Some("y"));
        }
    }
}

#[test]
fn system_info() {
    match system_info_response("1".into(), "2".into(), "me".into(), 42) {
        GetSystemInfoResponse::Status200(i) => {
            assert_eq!(i.interface_version.as_deref(), Some("1"));
            assert_eq!(i.version, "2");
            assert_eq!(i.author.as_deref(), Some("me"));
            assert_eq!(i.uptime, 42);
        }
    }
    match system_info_response("1".into(), "2".into(), "me".into(), u64::MAX) {
        GetSystemInfoResponse::Status200(i) => assert_eq!(i.uptime, i64::MAX),
    }
}
