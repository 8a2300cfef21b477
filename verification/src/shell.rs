//! The decisions of the interactive query shell: what a line of input asks
//! for. The shell itself, which reads the lines and runs the queries, is not
//! here.

use crate::text::{
    first_word, first_word_str, same_text, starts_with_str, strip_prefix_str, trim, trim_str,
};
use vstd::prelude::*;
use vstd::string::StrSliceExecFns;

verus! {

/// The text that `str::to_lowercase` makes of `text`.
pub uninterp spec fn lowercase_of(text: Seq<char>) -> Seq<char>;

/// Calls `str::to_lowercase`. Trusted: the result is the text that
/// `lowercase_of` names.
#[verifier::external_body]
fn lowercase(text: &str) -> (r: String)
    ensures
        r@ == lowercase_of(text@),
{
    text.to_lowercase()
}

/// What a line of input is.
#[derive(Clone, Copy, Debug, PartialEq, Eq)]
pub enum ShellInput<'a> {
    /// Nothing but whitespace.
    Empty,
    /// A command of the shell: it begins with a dot.
    DotCommand(&'a str),
    /// A query for the database.
    Sql(&'a str),
}

/// A line of input as plain text.
pub enum ShellInputView {
    Empty,
    DotCommand(Seq<char>),
    Sql(Seq<char>),
}

impl<'a> View for ShellInput<'a> {
    type V = ShellInputView;

    open spec fn view(&self) -> ShellInputView {
        match *self {
            ShellInput::Empty => ShellInputView::Empty,
            ShellInput::DotCommand(t) => ShellInputView::DotCommand(t@),
            ShellInput::Sql(t) => ShellInputView::Sql(t@),
        }
    }
}

/// A command of the shell.
#[derive(Debug, PartialEq, Eq)]
pub enum DotCommand {
    /// List the tables.
    Tables,
    /// Show the schema of the table with this name, or of all tables.
    Schema(Option<String>),
    /// Leave the shell.
    Quit,
    /// None of the commands.
    Unknown,
}

/// A command as plain text.
pub enum DotCommandView {
    Tables,
    Schema(Option<Seq<char>>),
    Quit,
    Unknown,
}

impl View for DotCommand {
    type V = DotCommandView;

    open spec fn view(&self) -> DotCommandView {
        match *self {
            DotCommand::Tables => DotCommandView::Tables,
            DotCommand::Schema(Some(name)) => DotCommandView::Schema(Some(name@)),
            DotCommand::Schema(None) => DotCommandView::Schema(None),
            DotCommand::Quit => DotCommandView::Quit,
            DotCommand::Unknown => DotCommandView::Unknown,
        }
    }
}

/// What a line of input is: the line is trimmed, and a dot at its front
/// makes it a command.
pub open spec fn shell_input(line: Seq<char>) -> ShellInputView {
    let input = trim(line);
    if input.len() == 0 {
        ShellInputView::Empty
    } else if input[0] == '.' {
        ShellInputView::DotCommand(input)
    } else {
        ShellInputView::Sql(input)
    }
}

/// The command that a text stands for. The text is trimmed and put in lower
/// case. `.tables`, `.schema`, `.quit` and `.exit` are commands; so is
/// `.schema `, followed by the name of a table, which is the next word.
pub open spec fn dot_command(command: Seq<char>) -> DotCommandView {
    let c = lowercase_of(trim(command));
    if c == ".tables"@ {
        DotCommandView::Tables
    } else if c == ".schema"@ {
        DotCommandView::Schema(None)
    } else if c == ".quit"@ || c == ".exit"@ {
        DotCommandView::Quit
    } else if ".schema "@.is_prefix_of(c) {
        let name = first_word(c.skip(".schema "@.len() as int));
        if name.len() > 0 {
            DotCommandView::Schema(Some(name))
        } else {
            DotCommandView::Schema(None)
        }
    } else {
        DotCommandView::Unknown
    }
}

/// Whether a query is one that gives rows: trimmed and in lower case, it
/// begins with `select`.
pub open spec fn gives_rows(query: Seq<char>) -> bool {
    "select"@.is_prefix_of(lowercase_of(trim(query)))
}

/// Tells what a line of input is.
pub fn read_input<'a>(line: &'a str) -> (r: ShellInput<'a>)
    ensures
        r@ == shell_input(line@),
{
    let input = trim_str(line);
    if input.is_empty() {
        ShellInput::Empty
    } else if input.get_char(0) == '.' {
        ShellInput::DotCommand(input)
    } else {
        ShellInput::Sql(input)
    }
}

/// Tells which command of the shell a text stands for.
pub fn parse_dot_command(command: &str) -> (r: DotCommand)
    ensures
        r@ == dot_command(command@),
{
    let lowered = lowercase(trim_str(command));
    let c = lowered.as_str();
    if same_text(c, ".tables") {
        DotCommand::Tables
    } else if same_text(c, ".schema") {
        DotCommand::Schema(None)
    } else if same_text(c, ".quit") || same_text(c, ".exit") {
        DotCommand::Quit
    } else if let Some(rest) = strip_prefix_str(c, ".schema ") {
        let name = first_word_str(rest);
        if name.is_empty() {
            DotCommand::Schema(None)
        } else {
            DotCommand::Schema(Some(name.to_owned()))
        }
    } else {
        DotCommand::Unknown
    }
}

/// Whether a query is one that gives rows.
pub fn is_select(query: &str) -> (r: bool)
    ensures
        r == gives_rows(query@),
{
    let lowered = lowercase(trim_str(query));
    starts_with_str(lowered.as_str(), "select")
}

} // verus!
