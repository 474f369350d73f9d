use flatdb::database::{Database, DatabaseError, DirEntry};
use flatdb::entry::Entry;
use flatdb::query::{Condition, Operator, SelectCols};
use flatdb::table::{Table, TableError};
use flatdb::types::DataType;

fn fresh_table() -> Table {
    let mut t = Table::new("stats".to_string(), "items".to_string());
    t.create(
        vec!["sku".to_string(), "qty".to_string()],
        vec![DataType::Text, DataType::Integer],
    );
    t
}

fn two_row_table() -> Table {
    let mut t = fresh_table();
    t.insert(
        SelectCols::All,
        vec![
            vec!["a1".to_string(), "5".to_string()],
            vec!["a2".to_string(), "3".to_string()],
        ],
    )
    .unwrap();
    t
}

fn value(e: &Entry, col: &str) -> Option<String> {
    e.get(col).map(|s| s.clone())
}

fn eq_cond(key: &str, val: &str) -> Condition {
    Condition {
        key: key.to_string(),
        value: val.to_string(),
        operator: Operator::Eq,
    }
}

#[test]
fn new_database_is_refused_when_present() {
    let dbs = vec!["stats".to_string(), "logs".to_string()];
    let r = Database::new(&dbs, "stats");
    assert!(matches!(r, Err(DatabaseError::DuplicatedDB(n)) if n == "stats"));
    assert!(Database::new(&dbs, "fresh").is_ok());
    assert!(Database::new(&Vec::new(), "stats").is_ok());
}

#[test]
fn drop_database_requires_presence() {
    let dbs = vec!["stats".to_string()];
    assert!(matches!(
        Database::drop(&dbs, "missing"),
        Err(DatabaseError::NotFound(n)) if n == "missing"
    ));
    assert!(Database::drop(&dbs, "stats").is_ok());
}

#[test]
fn db_exists_and_guard_agree() {
    let dbs = vec!["stats".to_string()];
    assert!(Database::db_exists(&dbs, "stats"));
    assert!(!Database::db_exists(&dbs, "other"));
    assert!(Database::exists_or_err(&dbs, "stats").is_ok());
    assert!(matches!(
        Database::exists_or_err(&dbs, "other"),
        Err(DatabaseError::NotFound(n)) if n == "other"
    ));
}

#[test]
fn get_dbs_lists_only_directories() {
    let root = vec![
        DirEntry { name: "stats".to_string(), is_dir: true },
        DirEntry { name: "curr_db".to_string(), is_dir: false },
        DirEntry { name: "logs".to_string(), is_dir: true },
    ];
    let dbs = Database::get_dbs(&root);
    assert_eq!(dbs, vec!["stats".to_string(), "logs".to_string()]);
    assert_eq!(Database::get_dbs(&Vec::new()), Vec::<String>::new());
}

#[test]
fn fresh_table_selects_empty() {
    let t = fresh_table();
    let out = t.select(SelectCols::All, None).unwrap();
    assert!(out.is_empty());
}

#[test]
fn insert_then_select_returns_rows_in_order() {
    let t = two_row_table();
    let out = t.select(SelectCols::All, None).unwrap();
    assert_eq!(out.len(), 2);
    assert_eq!(value(&out[0], "sku").as_deref(), Some("a1"));
    assert_eq!(value(&out[0], "qty").as_deref(), Some("5"));
    assert_eq!(value(&out[1], "sku").as_deref(), Some("a2"));
    assert_eq!(value(&out[1], "qty").as_deref(), Some("3"));
    assert_eq!(out[0].items().len(), 2);
    assert_eq!(out[1].items().len(), 2);
}

#[test]
fn insert_wrong_arity_writes_nothing() {
    let mut t = two_row_table();
    let r = t.insert(
        SelectCols::All,
        vec![
            vec!["b1".to_string(), "7".to_string()],
            vec!["b2".to_string()],
            vec!["b3".to_string(), "9".to_string()],
        ],
    );
    assert!(matches!(r, Err(TableError::NumberMismatch(1))));
    let out = t.select(SelectCols::All, None).unwrap();
    assert_eq!(out.len(), 2);
    assert_eq!(value(&out[0], "sku").as_deref(), Some("a1"));
    assert_eq!(value(&out[1], "sku").as_deref(), Some("a2"));
}

#[test]
fn insert_invalid_value_writes_nothing() {
    let mut t = two_row_table();
    let r = t.insert(
        SelectCols::All,
        vec![
            vec!["b1".to_string(), "7".to_string()],
            vec!["b2".to_string(), "seven".to_string()],
        ],
    );
    assert!(matches!(r, Err(TableError::TypeErr(v)) if v == "seven"));
    let out = t.select(SelectCols::All, None).unwrap();
    assert_eq!(out.len(), 2);
    assert_eq!(value(&out[0], "sku").as_deref(), Some("a1"));
    assert_eq!(value(&out[1], "sku").as_deref(), Some("a2"));
}

#[test]
fn insert_unknown_column_is_col_not_found() {
    let mut t = fresh_table();
    let r = t.insert(
        SelectCols::Cols(vec!["nope".to_string()]),
        vec![vec!["x".to_string()]],
    );
    assert!(matches!(r, Err(TableError::ColNotFound(c)) if c == "nope"));
    assert!(t.select(SelectCols::All, None).unwrap().is_empty());
}

#[test]
fn insert_subset_of_columns_builds_partial_rows() {
    let mut t = fresh_table();
    t.insert(
        SelectCols::Cols(vec!["sku".to_string()]),
        vec![vec!["only".to_string()]],
    )
    .unwrap();
    let out = t.select(SelectCols::All, None).unwrap();
    assert_eq!(out.len(), 1);
    assert_eq!(value(&out[0], "sku").as_deref(), Some("only"));
    assert_eq!(value(&out[0], "qty"), None);
}

#[test]
fn select_projects_requested_columns() {
    let t = two_row_table();
    let out = t
        .select(SelectCols::Cols(vec!["qty".to_string()]), None)
        .unwrap();
    assert_eq!(out.len(), 2);
    assert_eq!(value(&out[0], "qty").as_deref(), Some("5"));
    assert_eq!(value(&out[0], "sku"), None);
    assert_eq!(out[0].items().len(), 1);
}

#[test]
fn select_missing_projection_column_is_recoverable() {
    let mut t = fresh_table();
    t.insert(
        SelectCols::Cols(vec!["sku".to_string()]),
        vec![vec!["only".to_string()]],
    )
    .unwrap();
    let r = t.select(SelectCols::Cols(vec!["qty".to_string()]), None);
    assert!(matches!(r, Err(TableError::ColNotFound(c)) if c == "qty"));
}

#[test]
fn select_with_condition_filters() {
    let t = two_row_table();
    let out = t
        .select(SelectCols::All, Some(eq_cond("qty", "3")))
        .unwrap();
    assert_eq!(out.len(), 1);
    assert_eq!(value(&out[0], "sku").as_deref(), Some("a2"));
    let none = t
        .select(SelectCols::All, Some(eq_cond("qty", "4")))
        .unwrap();
    assert!(none.is_empty());
}

#[test]
fn delete_removes_matching_rows_only() {
    let mut t = two_row_table();
    t.delete(eq_cond("qty", "3"));
    let out = t.select(SelectCols::All, None).unwrap();
    assert_eq!(out.len(), 1);
    assert_eq!(value(&out[0], "sku").as_deref(), Some("a1"));
    assert_eq!(value(&out[0], "qty").as_deref(), Some("5"));
}

#[test]
fn add_col_backfills_default_and_keeps_schema_paired() {
    let mut t = two_row_table();
    t.add_col("active", DataType::Boolean).unwrap();
    assert_eq!(t.schema.cols.len(), 3);
    assert_eq!(t.schema.types.len(), 3);
    assert_eq!(t.schema.cols[2], "active");
    assert_eq!(t.schema.types[2], DataType::Boolean);
    let out = t.select(SelectCols::All, None).unwrap();
    assert_eq!(value(&out[0], "active").as_deref(), Some("false"));
    assert_eq!(value(&out[1], "active").as_deref(), Some("false"));
    assert_eq!(value(&out[0], "sku").as_deref(), Some("a1"));
}

#[test]
fn add_col_refuses_duplicate() {
    let mut t = fresh_table();
    let r = t.add_col("qty", DataType::Text);
    assert!(matches!(r, Err(TableError::ColAlreadyExist(c)) if c == "qty"));
    assert_eq!(t.schema.cols.len(), 2);
}

#[test]
fn remove_col_drops_schema_pair_and_keeps_row_values() {
    let mut t = two_row_table();
    t.remove_col("qty").unwrap();
    assert_eq!(t.schema.cols, vec!["sku".to_string()]);
    assert_eq!(t.schema.types, vec![DataType::Text]);
    // Chosen behavior: rows keep the removed column's value as stale data.
    let out = t.select(SelectCols::All, None).unwrap();
    assert_eq!(value(&out[0], "qty").as_deref(), Some("5"));
    assert!(matches!(
        t.remove_col("qty"),
        Err(TableError::ColNotFound(c)) if c == "qty"
    ));
}

#[test]
fn alter_changes_declared_type_only() {
    let mut t = two_row_table();
    t.alter("qty", DataType::Boolean).unwrap();
    assert_eq!(t.schema.types, vec![DataType::Text, DataType::Boolean]);
    assert_eq!(t.schema.cols.len(), 2);
    // Stored values are untouched, though they now violate the new type.
    let out = t.select(SelectCols::All, None).unwrap();
    assert_eq!(value(&out[0], "qty").as_deref(), Some("5"));
    assert_eq!(value(&out[1], "qty").as_deref(), Some("3"));
    assert!(matches!(
        t.alter("nope", DataType::Text),
        Err(TableError::ColNotFound(c)) if c == "nope"
    ));
}

#[test]
fn truncate_empties_entries_and_keeps_schema() {
    let mut t = two_row_table();
    t.truncate();
    assert!(t.select(SelectCols::All, None).unwrap().is_empty());
    assert_eq!(t.schema.cols.len(), 2);
}

#[test]
fn create_overwrites_silently() {
    let mut t = two_row_table();
    t.create(vec!["name".to_string()], vec![DataType::Text]);
    assert_eq!(t.schema.cols, vec!["name".to_string()]);
    assert!(t.select(SelectCols::All, None).unwrap().is_empty());
}

#[test]
fn table_guard_reports_db_then_table() {
    assert!(Table::exists_or_err(true, true, "stats", "items").is_ok());
    assert!(matches!(
        Table::exists_or_err(false, true, "stats", "items"),
        Err(TableError::DBErr(DatabaseError::NotFound(n))) if n == "stats"
    ));
    assert!(matches!(
        Table::exists_or_err(true, false, "stats", "items"),
        Err(TableError::TableNotFound(n)) if n == "items"
    ));
}
