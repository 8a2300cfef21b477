//! Making a query fit for a formatter.

use crate::pattern::{regex_accepts, regex_matches, regex_replace_all, Pattern};
use vstd::prelude::*;

verus! {

/// A `--` comment, up to and with the run of two or more tabs, or of eight or
/// more whitespace characters, that ends it.
pub const COMMENT_PATTERN: &'static str = r"--.*?(?:\t{2,}|\s{8,})";

/// The whole match, and a line feed after it.
pub const COMMENT_REPLACEMENT: &'static str = "${0}\n";

/// What `fix_comments` makes of `query`.
pub open spec fn comments_fixed(query: Seq<char>) -> Seq<char> {
    regex_replace_all(COMMENT_PATTERN@, query, COMMENT_REPLACEMENT@)
}

/// The compiled comment pattern.
pub struct CommentFixer {
    pattern: Pattern,
}

impl CommentFixer {
    #[verifier::type_invariant]
    spec fn holds_comment_pattern(self) -> bool {
        self.pattern@ == COMMENT_PATTERN@
    }

    /// Compiles the comment pattern. `None` where the regex engine rejects
    /// it.
    pub fn new() -> (r: Option<CommentFixer>)
        ensures
            r is Some <==> regex_accepts(COMMENT_PATTERN@),
    {
        match Pattern::new(COMMENT_PATTERN) {
            Some(pattern) => Some(CommentFixer { pattern }),
            None => None,
        }
    }

    /// Puts a line feed after each `--` comment that a run of blanks ends,
    /// so that a formatter does not take what follows for a part of the
    /// comment. A query without such a comment comes back unchanged.
    pub fn fix_comments(&self, query: &str) -> (r: String)
        ensures
            r@ == comments_fixed(query@),
            !regex_matches(COMMENT_PATTERN@, query@) ==> r@ == query@,
    {
        proof {
            use_type_invariant(self);
        }
        self.pattern.substitute_all(query, COMMENT_REPLACEMENT)
    }
}

/// The layout that `sqlformat::format` gives a query, without parameters,
/// with an indentation of `indent` spaces, `lines_between_queries` line
/// breaks after each query, keywords in upper case where `uppercase` asks for
/// it, and the crate's defaults otherwise.
pub uninterp spec fn sql_layout(
    query: Seq<char>,
    indent: u8,
    lines_between_queries: u8,
    uppercase: Option<bool>,
) -> Seq<char>;

/// Calls `sqlformat::format`. Trusted: the result is the text that
/// `sql_layout` names.
#[verifier::external_body]
fn lay_out(query: &str, indent: u8, lines_between_queries: u8, uppercase: Option<bool>) -> (r:
    String)
    ensures
        r@ == sql_layout(query@, indent, lines_between_queries, uppercase),
{
    let options = sqlformat::FormatOptions {
        indent: sqlformat::Indent::Spaces(indent),
        uppercase,
        lines_between_queries,
        ..sqlformat::FormatOptions::default()
    };
    sqlformat::format(query, &sqlformat::QueryParams::None, &options)
}

/// The width of the indentation of a displayed query.
pub const DISPLAY_INDENT: u8 = 4;

/// The line breaks between the queries of a displayed text.
pub const DISPLAY_LINES_BETWEEN_QUERIES: u8 = 2;

/// A query laid out for reading: indented by four spaces, two line breaks
/// between queries, keywords as they are.
pub fn format_for_display(query: &str) -> (r: String)
    ensures
        r@ == sql_layout(query@, DISPLAY_INDENT, DISPLAY_LINES_BETWEEN_QUERIES, None),
{
    lay_out(query, DISPLAY_INDENT, DISPLAY_LINES_BETWEEN_QUERIES, None)
}

/// Puts a line feed after each `--` comment that a run of blanks ends.
///
/// Where the regex engine does not compile the comment pattern, the query
/// comes back unchanged.
pub fn adhoc_fix_query(query: &str) -> (r: String)
    ensures
        regex_accepts(COMMENT_PATTERN@) ==> r@ == comments_fixed(query@),
        !regex_accepts(COMMENT_PATTERN@) ==> r@ == query@,
{
    match CommentFixer::new() {
        Some(fixer) => fixer.fix_comments(query),
        None => query.to_owned(),
    }
}

} // verus!
