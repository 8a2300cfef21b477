use cubrid_logtopbind_rs::db::{build_row, prepare_row, prepare_rows, PreparedRow};
use cubrid_logtopbind_rs::parser::log_entry::LogEntry;

fn entry(query_no: &str, query: &str, binds: &[&str]) -> LogEntry {
    LogEntry {
        query_no: query_no.to_string(),
        filename: "a.rs".to_string(),
        query: query.to_string(),
        bind_statements: binds.iter().map(|b| b.to_string()).collect(),
    }
}

#[test]
fn row_of_an_entry() {
    let row = prepare_row(&entry("7", "SELECT ? FROM t WHERE a = ?", &["x", "say \"hi\""]));
    assert_eq!(
        row,
        Some(PreparedRow {
            query_no: "7".to_string(),
            filename: "a.rs".to_string(),
            original_query: "SELECT ? FROM t WHERE a = ?".to_string(),
            replaced_query: "SELECT x FROM t WHERE a = say \"hi\"".to_string(),
            bind_vars: "[\"x\",\"say \\\"hi\\\"\"]".to_string(),
        })
    );
}

#[test]
fn row_of_an_entry_without_bound_values() {
    let row = prepare_row(&entry("1", "SELECT 1", &[])).unwrap();
    assert_eq!(row.replaced_query, "SELECT 1");
    assert_eq!(row.bind_vars, "[]");
}

#[test]
fn row_of_a_mismatching_entry_has_no_replaced_query() {
    let row = prepare_row(&entry("1", "SELECT ?, ?", &["1"])).unwrap();
    assert_eq!(row.original_query, "SELECT ?, ?");
    assert_eq!(row.replaced_query, "");
    assert_eq!(row.bind_vars, "[\"1\"]");
}

#[test]
fn build_row_takes_the_json_as_it_is() {
    let row = build_row(&entry("1", "a = ?", &["1"]), "anything".to_string());
    assert_eq!(row.replaced_query, "a = 1");
    assert_eq!(row.bind_vars, "anything");
    assert_eq!(row.query_no, "1");
    assert_eq!(row.filename, "a.rs");
}

#[test]
fn rows_keep_the_order_of_the_entries() {
    let entries = vec![
        entry("1", "a = ?", &["1"]),
        entry("2", "b = ?", &["line\nbreak"]),
        entry("3", "c", &[]),
    ];
    let rows = prepare_rows(&entries).unwrap();
    assert_eq!(rows.len(), 3);
    assert_eq!(rows[0].replaced_query, "a = 1");
    assert_eq!(rows[1].replaced_query, "b = line\nbreak");
    assert_eq!(rows[1].bind_vars, "[\"line\\nbreak\"]");
    assert_eq!(rows[2].query_no, "3");
    assert_eq!(prepare_rows(&[]), Ok(Vec::new()));
}
