use cubrid_logtopbind_rs::utils::query_format::{
    adhoc_fix_query, format_for_display, CommentFixer,
};

#[test]
fn test_comment_with_tabs() {
    let input = "SELECT * FROM users --comment here\t\t";
    let expected = "SELECT * FROM users --comment here\t\t\n";
    assert_eq!(adhoc_fix_query(input), expected);
}

#[test]
fn test_comment_with_spaces() {
    let input = "SELECT * FROM users --comment here        ";
    let expected = "SELECT * FROM users --comment here        \n";
    assert_eq!(adhoc_fix_query(input), expected);
}

#[test]
fn test_multiple_comments() {
    let input = "SELECT * FROM users --comment1\t\t\nWHERE id = 1 --comment2        ";
    let expected = "SELECT * FROM users --comment1\t\t\n\nWHERE id = 1 --comment2        \n";
    assert_eq!(adhoc_fix_query(input), expected);
}

#[test]
fn test_comment_with_insufficient_whitespace() {
    let input = "SELECT * FROM users --comment here\t"; // Only one tab
    let expected = "SELECT * FROM users --comment here\t"; // No change
    assert_eq!(adhoc_fix_query(input), expected);

    let input2 = "SELECT * FROM users --comment here       "; // Only 7 spaces
    let expected2 = "SELECT * FROM users --comment here       "; // No change
    assert_eq!(adhoc_fix_query(input2), expected2);
}

#[test]
fn fixer_agrees_with_adhoc_fix_query() {
    let fixer = CommentFixer::new().unwrap();
    let input = "SELECT 1 --one\t\t\tSELECT 2";
    assert_eq!(fixer.fix_comments(input), "SELECT 1 --one\t\t\t\nSELECT 2");
    assert_eq!(fixer.fix_comments(input), adhoc_fix_query(input));
}

#[test]
fn query_without_comment_is_unchanged() {
    assert_eq!(adhoc_fix_query(""), "");
    assert_eq!(
        adhoc_fix_query("SELECT a - b FROM t        WHERE x = 1"),
        "SELECT a - b FROM t        WHERE x = 1"
    );
}

#[test]
fn query_laid_out_for_display() {
    assert_eq!(
        format_for_display("SELECT a, b FROM t WHERE a = 1"),
        "SELECT\n    a,\n    b\nFROM\n    t\nWHERE\n    a = 1"
    );
}

#[test]
fn display_keeps_the_case_of_keywords() {
    assert_eq!(format_for_display("select 1"), "select\n    1");
}
