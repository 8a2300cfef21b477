use cubrid_logtopbind_rs::parser::log_entry::LogEntry;
use cubrid_logtopbind_rs::parser::parse_line::{DecodeError, Token};
use cubrid_logtopbind_rs::parser::{
    parse_log, parse_log_entries, parse_with, EntryAssembler, LinePatterns, ParseWarning,
};
use cubrid_logtopbind_rs::pattern::Pattern;

fn entry(query_no: &str, filename: &str, query: &str, binds: &[&str]) -> LogEntry {
    LogEntry {
        query_no: query_no.to_string(),
        filename: filename.to_string(),
        query: query.to_string(),
        bind_statements: binds.iter().map(|b| b.to_string()).collect(),
    }
}

#[test]
fn two_blocks_give_two_entries() {
    let trace = "[Q1]---\n\
21-02-24 15:30:45.123 (1) execute srv_h_id 1 SELECT ?\n\
21-02-24 15:30:45.124 (1) bind 1 : INT 1\n\
21-02-24 15:30:45.125 (1) execute 0 tuple 1 time 0.001\n\
a.rs:1\n\
[Q2]---\n\
21-02-24 15:30:46.123 (1) execute srv_h_id 1 SELECT ?, ?\n\
21-02-24 15:30:46.124 (1) bind 1 : INT 2\n\
21-02-24 15:30:46.125 (1) bind 2 : INT 3\n";
    let entries = parse_log_entries(trace).unwrap();
    assert_eq!(
        entries,
        vec![
            entry("1", "a.rs", "SELECT ?", &["1"]),
            entry("2", "", "SELECT ?, ?", &["2", "3"]),
        ]
    );
}

#[test]
fn blocks_do_not_depend_on_what_is_before_them() {
    let first = "[Q7]-\n21-02-24 15:30:45.124 (1) bind 1 : INT 1\nraw\n";
    let second = "[Q8]-\n21-02-24 15:30:45.124 (1) bind 1 : SHORT 2\nb.rs:2\n";
    let both = format!("{}{}", first, second);
    let mut expected = parse_log_entries(first).unwrap();
    expected.extend(parse_log_entries(second).unwrap());
    assert_eq!(parse_log_entries(&both).unwrap(), expected);
    assert_eq!(expected.len(), 2);
    assert_eq!(expected[0].bind_statements, vec!["1\nraw"]);
    assert_eq!(expected[1].bind_statements, vec!["2"]);
}

#[test]
fn bind_value_over_several_lines() {
    let trace = "[Q3]--\n\
21-02-24 15:30:47.124 (12345) bind 1 : VARCHAR (8)Jane Doe\n\
with multiple\n\
lines\n\
21-02-24 15:30:47.125 (12345) bind 2 : INT 25\n";
    let outcome = parse_log(trace).unwrap();
    assert_eq!(
        outcome.entries[0].bind_statements,
        vec!["Jane Doe\nwith multiple\nlines", "25"]
    );
    assert!(outcome.warnings.is_empty());
}

#[test]
fn one_record_end_to_end() {
    let trace = "[Q1]--------------------\n\
21-02-24 15:30:45.123 (12345) execute srv_h_id 1 SELECT * FROM t WHERE id = ?\n\
21-02-24 15:30:45.124 (12345) bind 1 : INT 42\n\
21-02-24 15:30:45.125 (12345) execute 0 tuple 1 time 0.000\n";
    let entries = parse_log_entries(trace).unwrap();
    assert_eq!(entries.len(), 1);
    assert_eq!(entries[0].query, "SELECT * FROM t WHERE id = ?");
    assert_eq!(entries[0].bind_statements, vec!["42"]);
    assert_eq!(
        LogEntry::replace_query_params(&entries[0].query, &entries[0].bind_statements),
        Ok("SELECT * FROM t WHERE id = 42".to_string())
    );
}

#[test]
fn empty_trace_has_no_entries() {
    let outcome = parse_log("").unwrap();
    assert!(outcome.entries.is_empty());
    assert!(outcome.warnings.is_empty());
    assert_eq!(outcome.unrecognized_lines(), 0);
}

#[test]
fn trace_without_a_record_start_has_no_entries() {
    let outcome = parse_log("\n\n21-02-24 15:30:45.124 (1) bind 1 : INT 1\nx.rs:3\n").unwrap();
    assert!(outcome.entries.is_empty());
    assert!(outcome.warnings.is_empty());
}

#[test]
fn record_start_opens_an_entry_with_nothing_in_it() {
    let trace = "21-02-24 15:30:45.124 (1) bind 1 : INT 1\n\
21-02-24 15:30:45.123 (1) execute srv_h_id 1 SELECT 0\n\
early.rs:9\n\
[Q5]-\n";
    let entries = parse_log_entries(trace).unwrap();
    assert_eq!(entries, vec![entry("5", "", "", &[])]);
}

#[test]
fn bind_values_come_in_the_order_of_the_trace() {
    let trace = "[Q1]-\n\
21-02-24 15:30:45.124 (1) bind 2 : INT 20\n\
21-02-24 15:30:45.124 (1) bind 1 : INT 10\n\
21-02-24 15:30:45.124 (1) bind 1 : INT 11\n";
    let entries = parse_log_entries(trace).unwrap();
    assert_eq!(entries[0].bind_statements, vec!["20", "10", "11"]);
}

#[test]
fn empty_line_ends_a_bound_value() {
    let trace = "[Q1]-\n\
21-02-24 15:30:45.124 (1) bind 1 : VARCHAR (3)abc\n\
\n\
tail\n";
    let outcome = parse_log(trace).unwrap();
    assert_eq!(outcome.entries[0].bind_statements, vec!["abc"]);
    assert_eq!(
        outcome.warnings,
        vec![ParseWarning::UnrecognizedLine("tail".to_string())]
    );
    assert_eq!(outcome.unrecognized_lines(), 1);
}

#[test]
fn unrecognized_lines_are_counted() {
    let trace = "first\n[Q1]-\nsecond\n\nthird\na.rs:1\n";
    let outcome = parse_log(trace).unwrap();
    assert_eq!(outcome.entries, vec![entry("1", "a.rs", "", &[])]);
    assert_eq!(
        outcome.warnings,
        vec![
            ParseWarning::UnrecognizedLine("first".to_string()),
            ParseWarning::UnrecognizedLine("second".to_string()),
            ParseWarning::UnrecognizedLine("third".to_string()),
        ]
    );
    assert_eq!(outcome.unrecognized_lines(), 3);
}

#[test]
fn malformed_bind_is_left_out() {
    let trace = "[Q1]-\n\
21-02-24 15:30:45.124 (1) bind 1 : INT 1\n\
21-02-24 15:30:45.124 (1) bind 2 : DATE 2021-02-24\n\
more of the date\n\
21-02-24 15:30:45.124 (1) bind 3 : VARCHAR (3\n\
21-02-24 15:30:45.124 (1) bind 4 : INT 4\n";
    let outcome = parse_log(trace).unwrap();
    assert_eq!(outcome.entries[0].bind_statements, vec!["1", "4"]);
    assert_eq!(
        outcome.warnings,
        vec![
            ParseWarning::MalformedBind {
                payload: "DATE 2021-02-24".to_string(),
                error: DecodeError::UnrecognizedFieldFormat,
            },
            ParseWarning::UnrecognizedLine("more of the date".to_string()),
            ParseWarning::MalformedBind {
                payload: "VARCHAR (3".to_string(),
                error: DecodeError::MalformedVarchar,
            },
        ]
    );
    assert_eq!(outcome.unrecognized_lines(), 1);
}

#[test]
fn second_query_text_replaces_the_first() {
    let trace = "[Q1]-\n\
21-02-24 15:30:45.123 (1) execute srv_h_id 1 SELECT 1\n\
21-02-24 15:30:45.123 (1) execute_all srv_h_id 2 SELECT 2\n";
    let outcome = parse_log(trace).unwrap();
    assert_eq!(outcome.entries[0].query, "SELECT 2");
    assert_eq!(
        outcome.warnings,
        vec![ParseWarning::QueryOverwritten("SELECT 1".to_string())]
    );
}

#[test]
fn carriage_returns_end_lines_too() {
    let trace = "[Q1]-\r\n21-02-24 15:30:45.124 (1) bind 1 : INT 1\r\nnext\r\na.rs:7\r\n";
    let entries = parse_log_entries(trace).unwrap();
    assert_eq!(entries, vec![entry("1", "a.rs", "", &["1\nnext"])]);
}

#[test]
fn assembler_takes_tokens_one_by_one() {
    let mut a = EntryAssembler::new();
    assert!(!a.after_bind());
    a.push(Token::RecordStart("1"));
    a.push(Token::Query("SELECT ?"));
    a.push(Token::Bind("VARCHAR (1)a"));
    assert!(a.after_bind());
    a.push(Token::BindContinuation("b"));
    assert!(a.after_bind());
    a.push(Token::BindContinuation(""));
    a.push(Token::RecordEnd);
    assert!(!a.after_bind());
    a.push(Token::SourceLocation("x.rs"));
    a.push(Token::Ignorable);
    a.push(Token::RecordStart("2"));
    a.push(Token::Bind("NULL"));
    a.push(Token::Ignorable);
    assert!(!a.after_bind());
    let outcome = a.finish();
    assert_eq!(
        outcome.entries,
        vec![
            entry("1", "x.rs", "SELECT ?", &["a\nb\n"]),
            entry("2", "", "", &["NULL"]),
        ]
    );
    assert!(outcome.warnings.is_empty());
}

#[test]
fn continuation_without_a_bound_value_changes_nothing() {
    let mut a = EntryAssembler::new();
    a.push(Token::RecordStart("1"));
    a.push(Token::BindContinuation("stray"));
    let outcome = a.finish();
    assert_eq!(outcome.entries, vec![entry("1", "", "", &[])]);
    assert_eq!(
        outcome.warnings,
        vec![ParseWarning::OrphanContinuation("stray".to_string())]
    );
    assert_eq!(outcome.unrecognized_lines(), 0);
}

#[test]
fn unfinished_assembler_without_record_start_gives_nothing() {
    let mut a = EntryAssembler::new();
    a.push(Token::Bind("INT 1"));
    a.push(Token::Unrecognized("what"));
    assert!(!a.after_bind());
    let outcome = a.finish();
    assert!(outcome.entries.is_empty());
    assert_eq!(
        outcome.warnings,
        vec![ParseWarning::UnrecognizedLine("what".to_string())]
    );
}

#[test]
fn parse_with_other_patterns() {
    let patterns = LinePatterns {
        query_no: Pattern::new(r"^#(\w+)$").unwrap(),
        bind: Pattern::new(r"^\s*= ").unwrap(),
        query: Pattern::new(r"^sql: (.*)$").unwrap(),
        end: Pattern::new(r"^done$").unwrap(),
        filename: Pattern::new(r"^at (.+)$").unwrap(),
    };
    let outcome = parse_with("#a\nsql: SELECT ?\n  = INT 1\ndone\nat main.c\n#b\n", &patterns);
    assert_eq!(
        outcome.entries,
        vec![
            entry("a", "main.c", "SELECT ?", &["1"]),
            entry("b", "", "", &[]),
        ]
    );
    assert!(outcome.warnings.is_empty());
}

#[test]
fn standard_patterns_compile() {
    assert!(LinePatterns::new().is_some());
}
