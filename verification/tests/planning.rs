use database::query::plan_copy_from_csv;
use database::query::{check_csv_first_record, plan_copy, plan_copy_column_order, QueryPlanError};
use database::schema::{ColumnType, Table};

fn table() -> Table {
    Table::new(
        "t".into(),
        &[("a".into(), ColumnType::INT64), ("b".into(), ColumnType::VARCHAR), ("c".into(), ColumnType::INT64)],
    )
    .unwrap()
}

fn names(v: &[&str]) -> Vec<String> {
    v.iter().map(|s| s.to_string()).collect()
}

#[test]
fn default_column_order() {
    assert_eq!(plan_copy_column_order(&"t".into(), &table(), None).unwrap(), names(&["a", "b", "c"]));
}

#[test]
fn requested_column_order() {
    assert_eq!(
        plan_copy_column_order(&"t".into(), &table(), Some(names(&["c", "a", "b"]))).unwrap(),
        names(&["c", "a", "b"])
    );
}

#[test]
fn column_order_errors() {
    match plan_copy_column_order(&"t".into(), &table(), Some(names(&["a"]))) {
        Err(QueryPlanError::WrongNumberOfColumnsInOrder { table_name, expected, got }) => {
            assert_eq!(table_name, "t");
            assert_eq!(expected, 3);
            assert_eq!(got, 1);
        }
        other => panic!("unexpected {:?}", other),
    }
    match plan_copy_column_order(&"t".into(), &table(), Some(names(&["a", "x", "a"]))) {
        Err(QueryPlanError::UnknownColumns(t, v)) => {
            assert_eq!(t, "t");
            assert_eq!(v, names(&["x"]));
        }
        other => panic!("unexpected {:?}", other),
    }
    match plan_copy_column_order(&"t".into(), &table(), Some(names(&["b", "b", "b"]))) {
        Err(QueryPlanError::DuplicatedColumns(t, v)) => {
            assert_eq!(t, "t");
            assert_eq!(v, names(&["b", "b"]));
        }
        other => panic!("unexpected {:?}", other),
    }
}

#[test]
fn csv_first_record() {
    assert!(matches!(
        check_csv_first_record(None, 3, true, "t".into(), Some("f.csv".into())),
        Err(QueryPlanError::FailedToParseCsv(Some(s))) if s == "f.csv"
    ));
    assert!(matches!(
        check_csv_first_record(Some(4), 3, true, "t".into(), None),
        Err(QueryPlanError::TooManyColumnsInCsvAndNoOrder(t, None)) if t == "t"
    ));
    assert!(check_csv_first_record(Some(4), 3, false, "t".into(), None).is_ok());
    assert!(check_csv_first_record(Some(3), 3, true, "t".into(), None).is_ok());
    assert!(check_csv_first_record(Some(1), 3, true, "t".into(), None).is_ok());
}

#[test]
fn copy_plans() {
    assert_eq!(plan_copy(&"t".into(), &table(), None, Some(3), None).unwrap(), names(&["a", "b", "c"]));
    assert!(matches!(
        plan_copy(&"t".into(), &table(), None, Some(5), Some("s".into())),
        Err(QueryPlanError::TooManyColumnsInCsvAndNoOrder(t, Some(s))) if t == "t" && s == "s"
    ));
    assert!(matches!(
        plan_copy(&"t".into(), &table(), Some(names(&["a"])), None, None),
        Err(QueryPlanError::FailedToParseCsv(None))
    ));
    assert!(matches!(
        plan_copy(&"t".into(), &table(), Some(names(&["a"])), Some(5), None),
        Err(QueryPlanError::WrongNumberOfColumnsInOrder { .. })
    ));
}

#[test]
fn copy_plans_from_csv_text() {
    let t = table();
    assert_eq!(
        plan_copy_from_csv(&"t".into(), &t, None, b"1;x;2\n3;y;4\n", false, None).unwrap(),
        names(&["a", "b", "c"])
    );
    assert!(matches!(
        plan_copy_from_csv(&"t".into(), &t, None, b"1;x;2;9\n", false, Some("f".into())),
        Err(QueryPlanError::TooManyColumnsInCsvAndNoOrder(n, Some(s))) if n == "t" && s == "f"
    ));
    // with a header line, the first record is the second line
    assert!(matches!(
        plan_copy_from_csv(&"t".into(), &t, None, b"a;b;c\n1;2;3\n", true, None),
        Ok(_)
    ));
    // a record whose length differs from the header's cannot be read
    assert!(matches!(
        plan_copy_from_csv(&"t".into(), &t, None, b"a;b;c;d\n1;2;3\n", true, None),
        Err(QueryPlanError::FailedToParseCsv(None))
    ));
    assert!(matches!(
        plan_copy_from_csv(&"t".into(), &t, None, b"a;b;c\n", true, Some("f".into())),
        Err(QueryPlanError::FailedToParseCsv(Some(s))) if s == "f"
    ));
    assert!(matches!(
        plan_copy_from_csv(&"t".into(), &t, None, b"", false, None),
        Err(QueryPlanError::FailedToParseCsv(None))
    ));
}
