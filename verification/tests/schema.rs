use database::schema::{decimal_string, generate_column_filename, get_column_path, validate_name, Column, ColumnType, Table, TableError};
use database::schema_manager::{is_schema_file_name, schema_file_name, FinishWriteError, LockedTable};

fn defs(names: &[&str]) -> Vec<(String, ColumnType)> {
    names.iter().map(|n| (n.to_string(), ColumnType::INT64)).collect()
}

#[test]
fn names() {
    assert!(validate_name("abc_1"));
    assert!(validate_name("_x"));
    assert!(validate_name("A"));
    assert!(validate_name(""));
    assert!(!validate_name("1abc"));
    assert!(!validate_name("a-b"));
    assert!(!validate_name("ą"));
    assert!(!validate_name("a b"));
}

#[test]
fn decimal_and_filenames() {
    assert_eq!(decimal_string(0), "0");
    assert_eq!(decimal_string(10), "10");
    assert_eq!(decimal_string(u64::MAX), u64::MAX.to_string());
    assert_eq!(generate_column_filename("t", "c", 12), "t:c:12");
    assert_ne!(generate_column_filename("t", "c", 1), generate_column_filename("t", "c", 11));
}

#[test]
fn table_new_errors() {
    assert!(matches!(Table::new("t".into(), &[]), Err(TableError::NoColumns(n)) if n == "t"));
    match Table::new("9t".into(), &defs(&["ok", "1bad", "b-ad"])) {
        Err(TableError::InvalidColumnName(n, v)) => {
            assert_eq!(n, "9t");
            assert_eq!(v, vec!["1bad".to_string(), "b-ad".to_string()]);
        }
        other => panic!("unexpected {:?}", other),
    }
    assert!(matches!(Table::new("9t".into(), &defs(&["ok"])), Err(TableError::InvalidTableName(n)) if n == "9t"));
}

#[test]
fn table_new_and_files() {
    let mut t = Table::new("tab".into(), &[("a".into(), ColumnType::INT64), ("b".into(), ColumnType::VARCHAR)]).unwrap();
    assert_eq!(t.name(), "tab");
    assert_eq!(t.columns().len(), 2);
    assert!(t.columns().iter().all(|c| c.files.is_empty()));

    let f = t.new_filenames();
    assert_eq!(f, vec![
        ("a".to_string(), ColumnType::INT64, "tab:a:0".to_string()),
        ("b".to_string(), ColumnType::VARCHAR, "tab:b:0".to_string()),
    ]);
    assert!(t.filenames_consistent(&f));
    assert!(t.add_filenames(f).is_ok());
    assert_eq!(t.columns()[0].files, vec!["tab:a:0".to_string()]);
    assert_eq!(t.new_filenames()[1].2, "tab:b:1");

    // wrong number of entries
    assert!(t.add_filenames(vec![]).is_err());
    // an entry that differs from its column in both name and type
    let bad = vec![
        ("x".to_string(), ColumnType::VARCHAR, "f".to_string()),
        ("b".to_string(), ColumnType::VARCHAR, "g".to_string()),
    ];
    assert!(t.filenames_consistent(&bad));
    assert!(t.add_filenames(bad).is_err());
    assert_eq!(t.columns()[0].files.len(), 1);
    // an entry with the name but not the type cannot be handed over
    let half = vec![
        ("a".to_string(), ColumnType::VARCHAR, "f".to_string()),
        ("b".to_string(), ColumnType::VARCHAR, "g".to_string()),
    ];
    assert!(!t.filenames_consistent(&half));
}

#[test]
fn column_paths() {
    let c = Column { name: "a".into(), column_type: ColumnType::INT64, files: vec!["t:a:0".into(), "t:a:1".into()] };
    let p = c.get_file_paths("/data");
    assert_eq!(p, vec!["/data/t:a:0".to_string(), "/data/t:a:1".to_string()]);
}

#[test]
fn locked_table() {
    let t = Table::new("tab".into(), &defs(&["a"])).unwrap();
    let mut l = LockedTable::new(t, "/d".into());
    assert!(!l.is_deleted());
    let targets = l.table().unwrap().0.new_filenames();
    assert_eq!(l.table().unwrap().1, "/d");
    assert!(l.add_copied_files(targets).is_ok());
    assert_eq!(l.table.columns()[0].files, vec!["tab:a:0".to_string()]);
    assert!(matches!(l.add_copied_files(vec![]), Err(FinishWriteError::InvalidFilenames)));
    l.mark_deleted();
    assert!(l.is_deleted());
    assert!(l.table().is_none());
    let again = l.table.new_filenames();
    assert!(matches!(l.add_copied_files(again), Err(FinishWriteError::TableDeleted)));
    assert_eq!(l.table.columns()[0].files.len(), 1);
}

#[test]
fn schema_files() {
    assert_eq!(schema_file_name("users"), "users.json");
    assert!(is_schema_file_name("users.json"));
    assert!(is_schema_file_name(".json"));
    assert!(!is_schema_file_name("json"));
    assert!(!is_schema_file_name("users.jsonx"));
    assert!(!is_schema_file_name("users.txt"));
}

#[test]
fn joined_paths() {
    assert_eq!(get_column_path("/data", "t_a_0"), "/data/t_a_0");
    assert_eq!(get_column_path("/data/", "t_a_0"), "/data/t_a_0");
    assert_eq!(get_column_path("", "t_a_0"), "t_a_0");
    assert!(get_column_path("rel/dir", "t:a:1").ends_with("t:a:1"));
}

#[test]
fn joined_paths_add_one_separator() {
    assert_eq!(get_column_path("data", "t_a_0"), "data/t_a_0");
    assert_eq!(get_column_path("data", "t:a:0"), "data/t:a:0");
    assert_eq!(get_column_path("C:", "x"), "C:/x");
}
