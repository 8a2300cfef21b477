use cubrid_logtopbind_rs::parser::log_entry::{ArityMismatch, InvalidEntry, LogEntry};

fn strings(values: &[&str]) -> Vec<String> {
    values.iter().map(|v| v.to_string()).collect()
}

fn entry(query_no: &str, query: &str, binds: &[&str]) -> LogEntry {
    LogEntry {
        query_no: query_no.to_string(),
        filename: String::new(),
        query: query.to_string(),
        bind_statements: strings(binds),
    }
}

#[test]
fn substitution_keeps_the_order() {
    let result = LogEntry::replace_query_params("a?b?c", &strings(&["X", "Y"]));
    assert_eq!(result, Ok("aXbYc".to_string()));
}

#[test]
fn substitution_twice_gives_the_same() {
    let values = strings(&["1", "'two'", "NULL"]);
    let query = "INSERT INTO t VALUES (?, ?, ?)";
    let first = LogEntry::replace_query_params(query, &values);
    let second = LogEntry::replace_query_params(query, &values);
    assert_eq!(first, second);
    assert_eq!(first, Ok("INSERT INTO t VALUES (1, 'two', NULL)".to_string()));
}

#[test]
fn substitution_without_placeholders() {
    assert_eq!(
        LogEntry::replace_query_params("SELECT 1", &[]),
        Ok("SELECT 1".to_string())
    );
    assert_eq!(LogEntry::replace_query_params("", &[]), Ok(String::new()));
}

#[test]
fn substitution_at_the_edges_of_the_query() {
    assert_eq!(
        LogEntry::replace_query_params("?", &strings(&["x"])),
        Ok("x".to_string())
    );
    assert_eq!(
        LogEntry::replace_query_params("??", &strings(&["x", "y"])),
        Ok("xy".to_string())
    );
    assert_eq!(
        LogEntry::replace_query_params("?a?", &strings(&["", "z"])),
        Ok("az".to_string())
    );
}

#[test]
fn substitution_is_verbatim() {
    // A value that holds a placeholder is not filled again.
    assert_eq!(
        LogEntry::replace_query_params("a = ? AND b = ?", &strings(&["?", "it's"])),
        Ok("a = ? AND b = it's".to_string())
    );
    assert_eq!(
        LogEntry::replace_query_params("이름 = ?", &strings(&["경기도"])),
        Ok("이름 = 경기도".to_string())
    );
}

#[test]
fn substitution_with_too_few_values() {
    assert_eq!(
        LogEntry::replace_query_params("a?b?c", &strings(&["X"])),
        Err(ArityMismatch { expected: 2, actual: 1 })
    );
}

#[test]
fn substitution_with_too_many_values() {
    assert_eq!(
        LogEntry::replace_query_params("a?b", &strings(&["X", "Y", "Z"])),
        Err(ArityMismatch { expected: 1, actual: 3 })
    );
    assert_eq!(
        LogEntry::replace_query_params("", &strings(&["X"])),
        Err(ArityMismatch { expected: 0, actual: 1 })
    );
}

#[test]
fn substitution_succeeds_exactly_on_matching_arity() {
    let query = "? ? ?";
    for n in 0..6 {
        let values: Vec<String> = (0..n).map(|i| i.to_string()).collect();
        let result = LogEntry::replace_query_params(query, &values);
        assert_eq!(result.is_ok(), n == 3);
        if n != 3 {
            assert_eq!(result, Err(ArityMismatch { expected: 3, actual: n }));
        }
    }
}

#[test]
fn substituting_placeholders_gives_the_query_back() {
    let query = "UPDATE t SET a = ?, b = ? WHERE c IN (?, ?)";
    let result = LogEntry::replace_query_params(query, &strings(&["?", "?", "?", "?"]));
    assert_eq!(result, Ok(query.to_string()));
}

#[test]
fn default_entry_is_empty() {
    let e = LogEntry::default();
    assert_eq!(e.query_no, "");
    assert_eq!(e.filename, "");
    assert_eq!(e.query, "");
    assert!(e.bind_statements.is_empty());
    assert!(e.has_matching_arity());
}

#[test]
fn check_arity_reports_both_counts() {
    assert_eq!(entry("1", "a = ? AND b = ?", &["1", "2"]).check_arity(), Ok(()));
    assert_eq!(
        entry("1", "a = ? AND b = ?", &["1"]).check_arity(),
        Err(ArityMismatch { expected: 2, actual: 1 })
    );
    assert_eq!(
        entry("1", "a = 1", &["1"]).check_arity(),
        Err(ArityMismatch { expected: 0, actual: 1 })
    );
    assert!(!entry("1", "a = ?", &[]).has_matching_arity());
}

#[test]
fn validate_entries_accepts_matching_entries() {
    let entries = vec![
        entry("1", "SELECT 1", &[]),
        entry("2", "SELECT ?", &["1"]),
        entry("3", "SELECT ?, ?", &["1", "2"]),
    ];
    assert_eq!(LogEntry::validate_entries(&entries), Ok(()));
    assert_eq!(LogEntry::validate_entries(&[]), Ok(()));
}

#[test]
fn validate_entries_reports_the_first_mismatch() {
    let entries = vec![
        entry("1", "SELECT 1", &[]),
        entry("2", "SELECT ?, ?", &["1"]),
        entry("3", "SELECT ?", &[]),
    ];
    assert_eq!(
        LogEntry::validate_entries(&entries),
        Err(InvalidEntry {
            index: 1,
            mismatch: ArityMismatch { expected: 2, actual: 1 },
        })
    );
}

#[test]
fn partition_by_arity_keeps_the_order() {
    let entries = vec![
        entry("1", "SELECT ?", &["1"]),
        entry("2", "SELECT ?, ?", &["1"]),
        entry("3", "SELECT 1", &[]),
        entry("4", "SELECT ?", &[]),
        entry("5", "SELECT ?", &["x", "y"]),
        entry("6", "?", &["z"]),
    ];
    let (kept, rejected) = LogEntry::partition_by_arity(entries);
    let numbers = |list: &Vec<LogEntry>| -> Vec<String> {
        list.iter().map(|e| e.query_no.clone()).collect()
    };
    assert_eq!(numbers(&kept), vec!["1", "3", "6"]);
    assert_eq!(numbers(&rejected), vec!["2", "4", "5"]);
    assert_eq!(kept[0], entry("1", "SELECT ?", &["1"]));
}

#[test]
fn partition_of_nothing() {
    let (kept, rejected) = LogEntry::partition_by_arity(Vec::new());
    assert!(kept.is_empty());
    assert!(rejected.is_empty());
}
