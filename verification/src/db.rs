//! Log entries as the rows that are stored: each with the query that
//! substitution made of it, and with its bound values as a JSON text.

use crate::parser::log_entry::{substitution, texts, LogEntry, LogEntryView};
use vstd::prelude::*;

verus! {

/// `serde_json::Error`, the error of a serialisation. Nothing is known of
/// what is inside one.
#[verifier::external_type_specification]
#[verifier::external_body]
pub struct ExJsonError(serde_json::Error);

/// What `serde_json::to_string` makes of a list of strings: the JSON text,
/// or `None` where it fails.
pub uninterp spec fn json_of_texts(values: Seq<Seq<char>>) -> Option<Seq<char>>;

/// Calls `serde_json::to_string` on a list of strings. Trusted: the call
/// fails or gives a text as `json_of_texts` names it. Nothing is said of
/// when it fails, or of the error.
#[verifier::external_body]
fn texts_to_json(values: &Vec<String>) -> (r: Result<String, serde_json::Error>)
    ensures
        r is Ok <==> json_of_texts(texts(values@)) is Some,
        r matches Ok(json) ==> json_of_texts(texts(values@)) == Some(json@),
{
    serde_json::to_string(values)
}

/// The bound values of an entry could not be written as JSON.
#[derive(Clone, Copy, Debug, PartialEq, Eq, Structural)]
pub struct JsonFailed {
    /// Where the entry stands in the list that was prepared.
    pub index: usize,
}

/// One row of the table of queries.
#[derive(Debug, PartialEq, Eq)]
pub struct PreparedRow {
    pub query_no: String,
    pub filename: String,
    /// The query as the trace has it.
    pub original_query: String,
    /// The query with its bound values in place; empty where the entry has
    /// not one value for each placeholder.
    pub replaced_query: String,
    /// The bound values, as a JSON list of strings.
    pub bind_vars: String,
}

/// A row as plain text.
pub struct PreparedRowView {
    pub query_no: Seq<char>,
    pub filename: Seq<char>,
    pub original_query: Seq<char>,
    pub replaced_query: Seq<char>,
    pub bind_vars: Seq<char>,
}

impl View for PreparedRow {
    type V = PreparedRowView;

    open spec fn view(&self) -> PreparedRowView {
        PreparedRowView {
            query_no: self.query_no@,
            filename: self.filename@,
            original_query: self.original_query@,
            replaced_query: self.replaced_query@,
            bind_vars: self.bind_vars@,
        }
    }
}

/// The views of a list of rows.
pub open spec fn row_views(rows: Seq<PreparedRow>) -> Seq<PreparedRowView> {
    Seq::new(rows.len(), |i: int| rows[i]@)
}

/// The query of a row: what substitution gives, or nothing where it fails.
pub open spec fn replaced_or_empty(query: Seq<char>, values: Seq<Seq<char>>) -> Seq<char> {
    match substitution(query, values) {
        Ok(replaced) => replaced,
        Err(_) => Seq::empty(),
    }
}

/// The row of an entry whose bound values have the JSON text `bind_vars`.
pub open spec fn row_of(entry: LogEntryView, bind_vars: Seq<char>) -> PreparedRowView {
    PreparedRowView {
        query_no: entry.query_no,
        filename: entry.filename,
        original_query: entry.query,
        replaced_query: replaced_or_empty(entry.query, entry.bind_statements),
        bind_vars,
    }
}

/// Makes the row of an entry, given the JSON text of its bound values.
pub fn build_row(entry: &LogEntry, bind_vars: String) -> (r: PreparedRow)
    ensures
        r@ == row_of(entry@, bind_vars@),
{
    let replaced_query = match LogEntry::replace_query_params(
        entry.query.as_str(),
        entry.bind_statements.as_slice(),
    ) {
        Ok(replaced) => replaced,
        Err(_) => String::new(),
    };
    PreparedRow {
        query_no: entry.query_no.clone(),
        filename: entry.filename.clone(),
        original_query: entry.query.clone(),
        replaced_query,
        bind_vars,
    }
}

/// The row of an entry; `None` where its bound values cannot be written as
/// JSON.
pub open spec fn prepared(entry: LogEntryView) -> Option<PreparedRowView> {
    match json_of_texts(entry.bind_statements) {
        Some(bind_vars) => Some(row_of(entry, bind_vars)),
        None => None,
    }
}

/// The view of an optional row.
pub open spec fn opt_row_view(row: Option<PreparedRow>) -> Option<PreparedRowView> {
    match row {
        Some(r) => Some(r@),
        None => None,
    }
}

/// Makes the row of an entry. `None` where its bound values could not be
/// written as JSON.
pub fn prepare_row(entry: &LogEntry) -> (r: Option<PreparedRow>)
    ensures
        opt_row_view(r) == prepared(entry@),
{
    match texts_to_json(&entry.bind_statements) {
        Ok(json) => Some(build_row(entry, json)),
        Err(_) => None,
    }
}

/// Makes the rows of a list of entries, in the order of the list. Stops at
/// the first entry whose bound values could not be written as JSON.
pub fn prepare_rows(entries: &[LogEntry]) -> (r: Result<Vec<PreparedRow>, JsonFailed>)
    ensures
        r is Ok <==> forall|i: int| 0 <= i < entries@.len() ==> prepared(entries@[i]@) is Some,
        r matches Ok(rows) ==> {
            &&& rows@.len() == entries@.len()
            &&& forall|i: int|
                0 <= i < rows@.len() ==> Some(#[trigger] rows@[i]@) == prepared(entries@[i]@)
        },
        r matches Err(e) ==> {
            &&& e.index < entries@.len()
            &&& prepared(entries@[e.index as int]@) is None
            &&& forall|i: int| 0 <= i < e.index ==> prepared(entries@[i]@) is Some
        },
{
    let mut rows: Vec<PreparedRow> = Vec::new();
    let mut index: usize = 0;
    while index < entries.len()
        invariant
            index <= entries@.len(),
            rows@.len() == index,
            forall|i: int| 0 <= i < index ==> prepared(entries@[i]@) is Some,
            forall|i: int|
                0 <= i < rows@.len() ==> Some(#[trigger] rows@[i]@) == prepared(entries@[i]@),
        decreases entries@.len() - index,
    {
        match prepare_row(&entries[index]) {
            Some(row) => {
                rows.push(row);
            },
            None => {
                return Err(JsonFailed { index });
            },
        }
        index = index + 1;
    }
    Ok(rows)
}

} // verus!
