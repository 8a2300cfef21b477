//! One line of a trace: what kind of line it is, and what a bind line's
//! payload says.

use crate::encoding::split_once_at;
use crate::pattern::{group_at, opt_text, regex_captures, regex_find, regex_matches, Pattern};
use crate::text::{position_of, same_text, strip_prefix_str, trim, trim_str};
use vstd::prelude::*;
use vstd::utf8::{decode_utf8, encode_utf8, is_char_boundary};

verus! {

/// A line that one of the five line patterns matched.
#[derive(Clone, Copy, Debug, PartialEq, Eq)]
pub enum ParsedLine<'a> {
    /// The line that opens an entry, with the entry's number.
    QueryNo(&'a str),
    /// A bind line, with its payload: what follows `bind <n> : `.
    Bind(&'a str),
    /// The line that executes a statement, with the query text.
    Query(&'a str),
    /// The line that reports that the execution ended.
    End,
    /// A source location, with the file's name.
    Filename(&'a str),
}

/// A parsed line as plain text.
pub enum ParsedLineView {
    QueryNo(Seq<char>),
    Bind(Seq<char>),
    Query(Seq<char>),
    End,
    Filename(Seq<char>),
}

impl<'a> View for ParsedLine<'a> {
    type V = ParsedLineView;

    open spec fn view(&self) -> ParsedLineView {
        match *self {
            ParsedLine::QueryNo(t) => ParsedLineView::QueryNo(t@),
            ParsedLine::Bind(t) => ParsedLineView::Bind(t@),
            ParsedLine::Query(t) => ParsedLineView::Query(t@),
            ParsedLine::End => ParsedLineView::End,
            ParsedLine::Filename(t) => ParsedLineView::Filename(t@),
        }
    }
}

/// The view of an optional parsed line.
pub open spec fn parsed_view(p: Option<ParsedLine<'_>>) -> Option<ParsedLineView> {
    match p {
        Some(l) => Some(l@),
        None => None,
    }
}

/// What the five line patterns found in one line.
///
/// For a pattern with a capture group the outer `Option` says whether the
/// pattern matched, and the inner one holds the group's text.
#[derive(Clone, Copy, Debug, PartialEq, Eq)]
pub struct LineMatches<'a> {
    /// The entry-opening pattern, with the entry's number.
    pub query_no: Option<Option<&'a str>>,
    /// The bind pattern, with what follows its match in the line.
    pub bind: Option<&'a str>,
    /// The query pattern, with the query text.
    pub query: Option<Option<&'a str>>,
    /// Whether the end-of-execution pattern matched.
    pub end: bool,
    /// The source-location pattern, with the file's name.
    pub filename: Option<Option<&'a str>>,
}

/// The matches of one line as plain text.
pub struct LineMatchesView {
    pub query_no: Option<Option<Seq<char>>>,
    pub bind: Option<Seq<char>>,
    pub query: Option<Option<Seq<char>>>,
    pub end: bool,
    pub filename: Option<Option<Seq<char>>>,
}

/// The view of a match with a capture group.
pub open spec fn group_view(g: Option<Option<&str>>) -> Option<Option<Seq<char>>> {
    match g {
        Some(Some(t)) => Some(Some(t@)),
        Some(None) => Some(None),
        None => None,
    }
}

impl<'a> View for LineMatches<'a> {
    type V = LineMatchesView;

    open spec fn view(&self) -> LineMatchesView {
        LineMatchesView {
            query_no: group_view(self.query_no),
            bind: match self.bind {
                Some(t) => Some(t@),
                None => None,
            },
            query: group_view(self.query),
            end: self.end,
            filename: group_view(self.filename),
        }
    }
}

/// The kind of line that a set of matches stands for. The patterns are asked
/// in a fixed order and the first that matched decides: entry opening, bind,
/// query, end of execution, source location. A pattern that matched without
/// its capture group decides too, and gives no line.
pub open spec fn select(m: LineMatchesView) -> Option<ParsedLineView> {
    if m.query_no is Some {
        match m.query_no->0 {
            Some(t) => Some(ParsedLineView::QueryNo(t)),
            None => None,
        }
    } else if m.bind is Some {
        Some(ParsedLineView::Bind(m.bind->0))
    } else if m.query is Some {
        match m.query->0 {
            Some(t) => Some(ParsedLineView::Query(t)),
            None => None,
        }
    } else if m.end {
        Some(ParsedLineView::End)
    } else if m.filename is Some {
        match m.filename->0 {
            Some(t) => Some(ParsedLineView::Filename(t)),
            None => None,
        }
    } else {
        None
    }
}

/// The text of `line` from the byte offset `from` of its UTF-8 encoding on.
pub open spec fn text_from(line: Seq<char>, from: int) -> Seq<char> {
    decode_utf8(encode_utf8(line).subrange(from, encode_utf8(line).len() as int))
}

/// The text from a character boundary on is what is left of the line: with
/// the text before the boundary in front of it, it is the line.
pub proof fn lemma_text_from_is_the_rest(line: Seq<char>, from: int)
    requires
        is_char_boundary(encode_utf8(line), from),
    ensures
        decode_utf8(encode_utf8(line).subrange(0, from)) + text_from(line, from) == line,
{
    vstd::utf8::encode_utf8_valid_utf8(line);
    vstd::utf8::encode_utf8_decode_utf8(line);
    vstd::utf8::decode_utf8_split(encode_utf8(line), from);
}

/// A pattern's first capture group in `line`: `None` where the pattern does
/// not match, `Some(None)` where it matches without the group.
pub open spec fn first_group(pattern: Seq<char>, line: Seq<char>) -> Option<Option<Seq<char>>> {
    if regex_matches(pattern, line) {
        Some(group_at(regex_captures(pattern, line), 1))
    } else {
        None
    }
}

/// What follows the first match of `pattern` in `line`.
pub open spec fn text_after_match(pattern: Seq<char>, line: Seq<char>) -> Option<Seq<char>> {
    match regex_find(pattern, line) {
        Some(m) => Some(text_from(line, m.1)),
        None => None,
    }
}

/// What five patterns find in `line`.
pub open spec fn line_matches(
    line: Seq<char>,
    query_no: Seq<char>,
    bind: Seq<char>,
    query: Seq<char>,
    end: Seq<char>,
    filename: Seq<char>,
) -> LineMatchesView {
    LineMatchesView {
        query_no: first_group(query_no, line),
        bind: text_after_match(bind, line),
        query: first_group(query, line),
        end: regex_matches(end, line),
        filename: first_group(filename, line),
    }
}

/// Why the payload of a bind line could not be decoded.
#[derive(Clone, Copy, Debug, PartialEq, Eq, Structural)]
pub enum DecodeError {
    /// The payload begins with none of the known type tags.
    UnrecognizedFieldFormat,
    /// A `VARCHAR` payload without the `)` that ends its length field.
    MalformedVarchar,
}

/// The value that a bind payload stands for.
///
/// The payload is trimmed first. `NULL` stands for itself. After `SHORT ` or
/// `INT ` the rest, trimmed, is the value. After `VARCHAR` the value is what
/// follows the first `)`, trimmed; the length field before it is not read.
pub open spec fn decode_bind_value(payload: Seq<char>) -> Result<Seq<char>, DecodeError> {
    let t = trim(payload);
    if t == "NULL"@ {
        Ok("NULL"@)
    } else if "SHORT "@.is_prefix_of(t) {
        Ok(trim(t.skip("SHORT "@.len() as int)))
    } else if "INT "@.is_prefix_of(t) {
        Ok(trim(t.skip("INT "@.len() as int)))
    } else if "VARCHAR"@.is_prefix_of(t) {
        let close = position_of(t, ')');
        if close < t.len() {
            Ok(trim(t.skip(close as int + 1)))
        } else {
            Err(DecodeError::MalformedVarchar)
        }
    } else {
        Err(DecodeError::UnrecognizedFieldFormat)
    }
}

/// What a decoding returned, with the text taken by its view.
pub open spec fn decoded_view(r: Result<String, DecodeError>) -> Result<Seq<char>, DecodeError> {
    match r {
        Ok(s) => Ok(s@),
        Err(e) => Err(e),
    }
}

impl DecodeError {
    /// The error in words.
    pub fn message(&self) -> (r: String)
        ensures
            r@ == match *self {
                DecodeError::UnrecognizedFieldFormat => "Unrecognized field format"@,
                DecodeError::MalformedVarchar => "Malformed VARCHAR field: missing ')'"@,
            },
    {
        match self {
            DecodeError::UnrecognizedFieldFormat => "Unrecognized field format".to_owned(),
            DecodeError::MalformedVarchar => "Malformed VARCHAR field: missing ')'".to_owned(),
        }
    }
}

/// Decodes the payload of a bind line into the value it stands for.
pub fn parse_bind_value(line: &str) -> (r: Result<String, DecodeError>)
    ensures
        decoded_view(r) == decode_bind_value(line@),
{
    let trimmed = trim_str(line);
    if same_text(trimmed, "NULL") {
        return Ok("NULL".to_owned());
    }
    if let Some(rest) = strip_prefix_str(trimmed, "SHORT ") {
        return Ok(trim_str(rest).to_owned());
    }
    if let Some(rest) = strip_prefix_str(trimmed, "INT ") {
        return Ok(trim_str(rest).to_owned());
    }
    if strip_prefix_str(trimmed, "VARCHAR").is_some() {
        match split_once_at(trimmed, ')') {
            Some((_, value)) => Ok(trim_str(value).to_owned()),
            None => Err(DecodeError::MalformedVarchar),
        }
    } else {
        Err(DecodeError::UnrecognizedFieldFormat)
    }
}

/// A line of a trace as the assembler takes it.
#[derive(Clone, Copy, Debug, PartialEq, Eq)]
pub enum Token<'a> {
    /// An entry begins, with this number.
    RecordStart(&'a str),
    /// The query text of the entry.
    Query(&'a str),
    /// A bound value, still encoded.
    Bind(&'a str),
    /// A further line of the bound value before it.
    BindContinuation(&'a str),
    /// The execution ended.
    RecordEnd,
    /// Where the query was issued from.
    SourceLocation(&'a str),
    /// An empty line.
    Ignorable,
    /// A line that is nothing of the above.
    Unrecognized(&'a str),
}

/// A token as plain text.
pub enum TokenView {
    RecordStart(Seq<char>),
    Query(Seq<char>),
    Bind(Seq<char>),
    BindContinuation(Seq<char>),
    RecordEnd,
    SourceLocation(Seq<char>),
    Ignorable,
    Unrecognized(Seq<char>),
}

impl<'a> View for Token<'a> {
    type V = TokenView;

    open spec fn view(&self) -> TokenView {
        match *self {
            Token::RecordStart(t) => TokenView::RecordStart(t@),
            Token::Query(t) => TokenView::Query(t@),
            Token::Bind(t) => TokenView::Bind(t@),
            Token::BindContinuation(t) => TokenView::BindContinuation(t@),
            Token::RecordEnd => TokenView::RecordEnd,
            Token::SourceLocation(t) => TokenView::SourceLocation(t@),
            Token::Ignorable => TokenView::Ignorable,
            Token::Unrecognized(t) => TokenView::Unrecognized(t@),
        }
    }
}

/// The token that a line stands for, given what the patterns made of it and
/// whether the line before it belonged to a bound value. A line that the
/// patterns know is what they say. Of the others an empty line is ignorable;
/// any other continues the bound value before it, or, where there is none,
/// is unrecognized.
pub open spec fn token_of(
    line: Seq<char>,
    parsed: Option<ParsedLineView>,
    after_bind: bool,
) -> TokenView {
    match parsed {
        Some(ParsedLineView::QueryNo(t)) => TokenView::RecordStart(t),
        Some(ParsedLineView::Bind(t)) => TokenView::Bind(t),
        Some(ParsedLineView::Query(t)) => TokenView::Query(t),
        Some(ParsedLineView::End) => TokenView::RecordEnd,
        Some(ParsedLineView::Filename(t)) => TokenView::SourceLocation(t),
        None => if line.len() == 0 {
            TokenView::Ignorable
        } else if after_bind {
            TokenView::BindContinuation(line)
        } else {
            TokenView::Unrecognized(line)
        },
    }
}

/// Turns a line, and what the patterns made of it, into a token.
pub fn classify<'a>(line: &'a str, parsed: Option<ParsedLine<'a>>, after_bind: bool) -> (r: Token<
    'a,
>)
    ensures
        r@ == token_of(line@, parsed_view(parsed), after_bind),
{
    match parsed {
        Some(ParsedLine::QueryNo(text)) => Token::RecordStart(text),
        Some(ParsedLine::Bind(payload)) => Token::Bind(payload),
        Some(ParsedLine::Query(text)) => Token::Query(text),
        Some(ParsedLine::End) => Token::RecordEnd,
        Some(ParsedLine::Filename(text)) => Token::SourceLocation(text),
        None => if line.is_empty() {
            Token::Ignorable
        } else if after_bind {
            Token::BindContinuation(line)
        } else {
            Token::Unrecognized(line)
        },
    }
}

/// Picks the kind of line out of what the patterns found: the first of the
/// five that matched decides.
pub fn select_parsed_line<'a>(matches: &LineMatches<'a>) -> (r: Option<ParsedLine<'a>>)
    ensures
        parsed_view(r) == select(matches@),
{
    if let Some(group) = matches.query_no {
        match group {
            Some(text) => Some(ParsedLine::QueryNo(text)),
            None => None,
        }
    } else if let Some(payload) = matches.bind {
        Some(ParsedLine::Bind(payload))
    } else if let Some(group) = matches.query {
        match group {
            Some(text) => Some(ParsedLine::Query(text)),
            None => None,
        }
    } else if matches.end {
        Some(ParsedLine::End)
    } else if let Some(group) = matches.filename {
        match group {
            Some(text) => Some(ParsedLine::Filename(text)),
            None => None,
        }
    } else {
        None
    }
}

/// What follows the first match of `pattern` in `line`.
pub fn after_match<'a>(line: &'a str, pattern: &Pattern) -> (r: Option<&'a str>)
    ensures
        opt_text(r) == text_after_match(pattern@, line@),
{
    match pattern.find_end(line) {
        Some(end) => {
            let (_, rest) = line.split_at(end);
            proof {
                vstd::utf8::encode_utf8_decode_utf8(rest@);
            }
            Some(rest)
        },
        None => None,
    }
}

/// Asks the five patterns about `line`.
pub fn match_line<'a>(
    line: &'a str,
    re_query_no: &Pattern,
    re_bind: &Pattern,
    re_query: &Pattern,
    re_end: &Pattern,
    re_filename: &Pattern,
) -> (r: LineMatches<'a>)
    ensures
        r@ == line_matches(line@, re_query_no@, re_bind@, re_query@, re_end@, re_filename@),
{
    LineMatches {
        query_no: re_query_no.group(line, 1),
        bind: after_match(line, re_bind),
        query: re_query.group(line, 1),
        end: re_end.has_match(line),
        filename: re_filename.group(line, 1),
    }
}

/// Tells what kind of line `line` is, by the five patterns, asked in this
/// order; `None` where none of them gives a line.
pub fn parse_line<'a>(
    line: &'a str,
    re_query_no: &Pattern,
    re_bind: &Pattern,
    re_query: &Pattern,
    re_end: &Pattern,
    re_filename: &Pattern,
) -> (r: Option<ParsedLine<'a>>)
    ensures
        parsed_view(r) == select(
            line_matches(line@, re_query_no@, re_bind@, re_query@, re_end@, re_filename@),
        ),
{
    let matches = match_line(line, re_query_no, re_bind, re_query, re_end, re_filename);
    select_parsed_line(&matches)
}

} // verus!
