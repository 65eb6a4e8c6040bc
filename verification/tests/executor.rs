use database::executor::reads_cover_files;
use database::column_file::ReadResult;
use database::executor::{merge_select_results, select_columns, select_query_state, ExecuteError, SelectResult};
use database::query::{Column, QueryError, QueryResult, QueryStateMarker};
use database::schema::{self, ColumnType};

fn col(name: &str, t: ColumnType, files: usize) -> schema::Column {
    schema::Column { name: name.into(), column_type: t, files: (0..files).map(|i| format!("f{i}")).collect() }
}

#[test]
fn merge_orders_files_and_columns() {
    let columns = vec![col("a", ColumnType::INT64, 2), col("b", ColumnType::VARCHAR, 1)];
    let reads = vec![
        (1, 0, ReadResult::Str(vec![vec!["x".to_string()]])),
        (0, 1, ReadResult::Int64(vec![vec![3], vec![4]])),
        (0, 0, ReadResult::Int64(vec![vec![1, 2]])),
    ];
    let r = merge_select_results(&columns, reads).unwrap();
    assert_eq!(r.len(), 2);
    match &r[0] {
        SelectResult::Int64(v) => assert_eq!(v, &vec![vec![vec![1, 2]], vec![vec![3], vec![4]]]),
        other => panic!("unexpected {:?}", other),
    }
    match &r[1] {
        SelectResult::Str(v) => assert_eq!(v, &vec![vec![vec!["x".to_string()]]]),
        other => panic!("unexpected {:?}", other),
    }
}

#[test]
fn columns_without_files() {
    let columns = vec![col("a", ColumnType::INT64, 0), col("b", ColumnType::INT64, 1), col("c", ColumnType::VARCHAR, 0)];
    let reads = vec![(1, 0, ReadResult::Int64(vec![vec![7]]))];
    let r = merge_select_results(&columns, reads).unwrap();
    // up to the last column with a file
    assert_eq!(r.len(), 2);
    assert!(matches!(r[0], SelectResult::Empty));
    let cols = select_columns(r, &columns);
    assert!(matches!(&cols[0], Column::Int64(v) if v.is_empty()));
    assert!(matches!(&cols[1], Column::Int64(v) if v == &vec![vec![vec![7]]]));

    let none = merge_select_results(&vec![col("a", ColumnType::VARCHAR, 0)], vec![]).unwrap();
    assert!(none.is_empty());
    let empty_str = select_columns(vec![SelectResult::Empty], &vec![col("a", ColumnType::VARCHAR, 0)]);
    assert!(matches!(&empty_str[0], Column::String(v) if v.is_empty()));
}

#[test]
fn mixed_types_fail() {
    let columns = vec![col("a", ColumnType::INT64, 2)];
    let reads = vec![(0, 0, ReadResult::Int64(vec![])), (0, 1, ReadResult::Str(vec![]))];
    match merge_select_results(&columns, reads) {
        Err(ExecuteError::UnknownError(m)) => assert_eq!(m, "type mismatch while reading column files"),
        other => panic!("unexpected {:?}", other),
    }
}

#[test]
fn query_states() {
    let columns = vec![col("a", ColumnType::VARCHAR, 1)];
    let ok = select_query_state(&columns, Ok(vec![SelectResult::Str(vec![vec![vec!["s".to_string()]]])]));
    match ok {
        QueryStateMarker::Completed(QueryResult::Select(c)) => {
            assert_eq!(c.len(), 1);
            assert!(matches!(&c[0], Column::String(v) if v == &vec![vec![vec!["s".to_string()]]]));
        }
        _ => panic!("not completed"),
    }
    let failed = select_query_state(&columns, Err(ExecuteError::UnknownError("x".into())));
    assert!(matches!(failed, QueryStateMarker::Failed(QueryError::ExecuteError)));
}

#[test]
fn read_coverage() {
    let columns = vec![col("a", ColumnType::INT64, 2), col("b", ColumnType::VARCHAR, 0)];
    let full = vec![(0, 1, ReadResult::Int64(vec![])), (0, 0, ReadResult::Int64(vec![]))];
    assert!(reads_cover_files(&columns, &full));
    let missing = vec![(0, 1, ReadResult::Int64(vec![]))];
    assert!(!reads_cover_files(&columns, &missing));
    let twice = vec![(0, 0, ReadResult::Int64(vec![])), (0, 1, ReadResult::Int64(vec![])), (0, 1, ReadResult::Int64(vec![]))];
    assert!(!reads_cover_files(&columns, &twice));
    let outside = vec![(0, 0, ReadResult::Int64(vec![])), (0, 1, ReadResult::Int64(vec![])), (1, 0, ReadResult::Str(vec![]))];
    assert!(!reads_cover_files(&columns, &outside));
}
