//! Reading an execution trace into log entries.
//!
//! A trace is read line by line. Each line becomes a token, and the tokens
//! are folded, in order, into entries: a record-start line opens an entry,
//! the lines after it fill it, and the next record-start line, or the end of
//! the trace, closes it.

use crate::lines::{lines_of, split_lines};
use crate::pattern::{regex_accepts, Pattern};
use vstd::prelude::*;
use vstd::string::StringExecFns;

pub mod log_entry;
pub mod parse_line;

pub use log_entry::LogEntry;
use log_entry::{entry_views, texts, LogEntryView};
use parse_line::{
    classify, decode_bind_value, line_matches, parse_bind_value, parse_line, select, token_of,
    DecodeError, ParsedLineView, Token, TokenView,
};

verus! {

/// The line that opens an entry: `[Q<number>]` and a run of dashes.
pub const QUERY_NO_PATTERN: &'static str = r"^\[Q(\d+)\]-+$";

/// A bind line: a timestamp, `bind <n> : `, and then the payload.
pub const BIND_PATTERN: &'static str =
    r"^(?:\d{2})-(?:\d{2})-(?:\d{2})\s(?:\d{2}):(?:\d{2}):(?:\d{2})\.(?:\d{3})\s\((?:\d+)\) bind \d+ : ";

/// The line that executes a statement: a timestamp, `execute` or
/// `execute_all`, the statement handle, and then the query text.
pub const QUERY_PATTERN: &'static str =
    r"^(?:\d{2})-(?:\d{2})-(?:\d{2})\s(?:\d{2}):(?:\d{2}):(?:\d{2})\.(?:\d{3})\s\((?:\d+)\) (?:execute_all|execute) srv_h_id \d* (.*)$";

/// The line that reports the end of an execution, with its tuple count and
/// its time.
pub const END_PATTERN: &'static str =
    r"^(?:\d{2})-(?:\d{2})-(?:\d{2})\s(?:\d{2}):(?:\d{2}):(?:\d{2})\.(?:\d{3})\s\((?:\d+)\) (?:execute_all|execute) (error:-)?\d+ tuple \d+ time .*$";

/// A source location: a file name of 2 to 152 letters, digits, dots, dashes
/// and underscores, a colon, and a line number.
pub const FILENAME_PATTERN: &'static str = r"^([a-zA-Z0-9][a-zA-Z0-9_\.-]{0,150}[a-zA-Z0-9]):\d{1,6}$";

/// The texts of five line patterns.
pub struct PatternTexts {
    pub query_no: Seq<char>,
    pub bind: Seq<char>,
    pub query: Seq<char>,
    pub end: Seq<char>,
    pub filename: Seq<char>,
}

impl PatternTexts {
    /// The patterns of the trace format.
    pub open spec fn standard() -> PatternTexts {
        PatternTexts {
            query_no: QUERY_NO_PATTERN@,
            bind: BIND_PATTERN@,
            query: QUERY_PATTERN@,
            end: END_PATTERN@,
            filename: FILENAME_PATTERN@,
        }
    }

    /// Whether the regex engine compiles all five.
    pub open spec fn accepted(self) -> bool {
        &&& regex_accepts(self.query_no)
        &&& regex_accepts(self.bind)
        &&& regex_accepts(self.query)
        &&& regex_accepts(self.end)
        &&& regex_accepts(self.filename)
    }

    /// What these patterns make of `line`.
    pub open spec fn parsed(self, line: Seq<char>) -> Option<ParsedLineView> {
        select(line_matches(line, self.query_no, self.bind, self.query, self.end, self.filename))
    }

    /// The token that `line` stands for under these patterns.
    pub open spec fn token(self, line: Seq<char>, after_bind: bool) -> TokenView {
        token_of(line, self.parsed(line), after_bind)
    }

    /// Whether `line` opens an entry.
    pub open spec fn opens_entry(self, line: Seq<char>) -> bool {
        self.parsed(line) matches Some(ParsedLineView::QueryNo(number)) && number.len() > 0
    }

    /// The numbers of the lines of `lines` that open an entry, in order.
    pub open spec fn entry_numbers(self, lines: Seq<Seq<char>>) -> Seq<Seq<char>>
        decreases lines.len(),
    {
        if lines.len() == 0 {
            Seq::empty()
        } else {
            let before = self.entry_numbers(lines.drop_last());
            if self.opens_entry(lines.last()) {
                before.push(self.parsed(lines.last())->0->QueryNo_0)
            } else {
                before
            }
        }
    }

    /// Whether `line` is a line that can continue a bound value: one that
    /// the patterns do not know, and that is not empty.
    pub open spec fn is_raw(self, line: Seq<char>) -> bool {
        self.parsed(line) is None && line.len() > 0
    }

    /// The state of the assembler after `lines`, each read under these
    /// patterns.
    pub open spec fn assemble(self, lines: Seq<Seq<char>>) -> AssemblerView
        decreases lines.len(),
    {
        if lines.len() == 0 {
            AssemblerView::start()
        } else {
            let before = self.assemble(lines.drop_last());
            before.step(self.token(lines.last(), before.after_bind))
        }
    }
}

/// The five compiled line patterns.
pub struct LinePatterns {
    pub query_no: Pattern,
    pub bind: Pattern,
    pub query: Pattern,
    pub end: Pattern,
    pub filename: Pattern,
}

impl View for LinePatterns {
    type V = PatternTexts;

    open spec fn view(&self) -> PatternTexts {
        PatternTexts {
            query_no: self.query_no@,
            bind: self.bind@,
            query: self.query@,
            end: self.end@,
            filename: self.filename@,
        }
    }
}

/// The regex engine did not compile the line patterns.
#[derive(Clone, Copy, Debug, PartialEq, Eq, Structural)]
pub struct PatternsRejected;

impl LinePatterns {
    /// Compiles the patterns of the trace format. `None` where the regex
    /// engine rejects one of them.
    pub fn new() -> (r: Option<LinePatterns>)
        ensures
            r is Some <==> PatternTexts::standard().accepted(),
            r matches Some(p) ==> p@ == PatternTexts::standard(),
    {
        let query_no = Pattern::new(QUERY_NO_PATTERN);
        let bind = Pattern::new(BIND_PATTERN);
        let query = Pattern::new(QUERY_PATTERN);
        let end = Pattern::new(END_PATTERN);
        let filename = Pattern::new(FILENAME_PATTERN);
        match (query_no, bind, query, end, filename) {
            (Some(query_no), Some(bind), Some(query), Some(end), Some(filename)) => Some(
                LinePatterns { query_no, bind, query, end, filename },
            ),
            _ => None,
        }
    }

    /// The token that `line` stands for.
    pub fn token<'a>(&self, line: &'a str, after_bind: bool) -> (r: Token<'a>)
        ensures
            r@ == self@.token(line@, after_bind),
    {
        let parsed = parse_line(
            line,
            &self.query_no,
            &self.bind,
            &self.query,
            &self.end,
            &self.filename,
        );
        classify(line, parsed, after_bind)
    }
}

/// Something in a trace that the parser passed over.
#[derive(Debug, PartialEq, Eq)]
pub enum ParseWarning {
    /// A line that is no known kind of line and continues no bound value.
    UnrecognizedLine(String),
    /// A bind line whose payload could not be decoded. The entry gets no
    /// value for it.
    MalformedBind { payload: String, error: DecodeError },
    /// An entry got a second query text. The text held here is the first,
    /// which the second replaced.
    QueryOverwritten(String),
    /// A continuation line in an entry without a bound value to continue.
    OrphanContinuation(String),
}

/// A warning as plain text.
pub enum ParseWarningView {
    UnrecognizedLine(Seq<char>),
    MalformedBind { payload: Seq<char>, error: DecodeError },
    QueryOverwritten(Seq<char>),
    OrphanContinuation(Seq<char>),
}

impl View for ParseWarning {
    type V = ParseWarningView;

    open spec fn view(&self) -> ParseWarningView {
        match *self {
            ParseWarning::UnrecognizedLine(t) => ParseWarningView::UnrecognizedLine(t@),
            ParseWarning::MalformedBind { payload, error } => ParseWarningView::MalformedBind {
                payload: payload@,
                error,
            },
            ParseWarning::QueryOverwritten(t) => ParseWarningView::QueryOverwritten(t@),
            ParseWarning::OrphanContinuation(t) => ParseWarningView::OrphanContinuation(t@),
        }
    }
}

/// The views of a list of warnings.
pub open spec fn warning_views(warnings: Seq<ParseWarning>) -> Seq<ParseWarningView> {
    Seq::new(warnings.len(), |i: int| warnings[i]@)
}

/// The state of the assembler as plain text.
pub struct AssemblerView {
    /// The entries that are closed, in the order in which they were opened.
    pub entries: Seq<LogEntryView>,
    /// The entry that is being filled. It is open when it has a number.
    pub current: LogEntryView,
    /// Whether the last token was a bound value or a continuation of one.
    pub after_bind: bool,
    /// What was passed over so far.
    pub warnings: Seq<ParseWarningView>,
}

impl AssemblerView {
    /// The state before the first line.
    pub open spec fn start() -> AssemblerView {
        AssemblerView {
            entries: Seq::empty(),
            current: LogEntryView::empty(),
            after_bind: false,
            warnings: Seq::empty(),
        }
    }

    /// Whether an entry is open.
    pub open spec fn is_open(self) -> bool {
        self.current.query_no.len() > 0
    }

    /// The closed entries, with the open one, if there is one, after them.
    pub open spec fn closed_entries(self) -> Seq<LogEntryView> {
        if self.is_open() {
            self.entries.push(self.current)
        } else {
            self.entries
        }
    }

    /// The state after one more token.
    pub open spec fn step(self, token: TokenView) -> AssemblerView {
        match token {
            TokenView::RecordStart(number) => AssemblerView {
                entries: self.closed_entries(),
                current: LogEntryView { query_no: number, ..LogEntryView::empty() },
                after_bind: false,
                warnings: self.warnings,
            },
            TokenView::Bind(payload) => match decode_bind_value(payload) {
                Ok(value) => AssemblerView {
                    current: LogEntryView {
                        bind_statements: self.current.bind_statements.push(value),
                        ..self.current
                    },
                    after_bind: true,
                    ..self
                },
                Err(error) => AssemblerView {
                    after_bind: false,
                    warnings: self.warnings.push(
                        ParseWarningView::MalformedBind { payload, error },
                    ),
                    ..self
                },
            },
            TokenView::BindContinuation(text) => if self.current.bind_statements.len() > 0 {
                AssemblerView {
                    current: LogEntryView {
                        bind_statements: self.current.bind_statements.drop_last().push(
                            self.current.bind_statements.last() + seq!['\n'] + text,
                        ),
                        ..self.current
                    },
                    ..self
                }
            } else {
                AssemblerView {
                    warnings: self.warnings.push(ParseWarningView::OrphanContinuation(text)),
                    ..self
                }
            },
            TokenView::Query(text) => AssemblerView {
                current: LogEntryView { query: text, ..self.current },
                after_bind: false,
                warnings: if self.current.query.len() > 0 {
                    self.warnings.push(ParseWarningView::QueryOverwritten(self.current.query))
                } else {
                    self.warnings
                },
                ..self
            },
            TokenView::RecordEnd => AssemblerView { after_bind: false, ..self },
            TokenView::SourceLocation(text) => AssemblerView {
                current: LogEntryView { filename: text, ..self.current },
                after_bind: false,
                ..self
            },
            TokenView::Ignorable => AssemblerView { after_bind: false, ..self },
            TokenView::Unrecognized(text) => AssemblerView {
                after_bind: false,
                warnings: self.warnings.push(ParseWarningView::UnrecognizedLine(text)),
                ..self
            },
        }
    }
}

/// The assembler: it takes the tokens of a trace, one by one and in order,
/// and builds the entries.
pub struct EntryAssembler {
    entries: Vec<LogEntry>,
    current: LogEntry,
    after_bind: bool,
    warnings: Vec<ParseWarning>,
}

impl View for EntryAssembler {
    type V = AssemblerView;

    closed spec fn view(&self) -> AssemblerView {
        AssemblerView {
            entries: entry_views(self.entries@),
            current: self.current@,
            after_bind: self.after_bind,
            warnings: warning_views(self.warnings@),
        }
    }
}

/// What a trace was read into.
#[derive(Debug, PartialEq, Eq)]
pub struct ParseOutcome {
    /// The entries, in the order in which the trace opens them.
    pub entries: Vec<LogEntry>,
    /// What the parser passed over, in the order of the trace.
    pub warnings: Vec<ParseWarning>,
}

impl ParseWarningView {
    /// Whether the warning is about an unrecognized line.
    pub open spec fn is_unrecognized_line(self) -> bool {
        self is UnrecognizedLine
    }
}

impl ParseOutcome {
    /// How many lines of the trace were unrecognized.
    pub fn unrecognized_lines(&self) -> (n: usize)
        ensures
            n == warning_views(self.warnings@).filter(
                |w: ParseWarningView| w.is_unrecognized_line(),
            ).len(),
    {
        let ghost all = warning_views(self.warnings@);
        let ghost unrecognized = |w: ParseWarningView| w.is_unrecognized_line();
        let mut n: usize = 0;
        let mut index: usize = 0;
        proof {
            reveal(Seq::filter);
            assert(all.take(0) =~= Seq::empty());
        }
        while index < self.warnings.len()
            invariant
                index <= self.warnings@.len(),
                all == warning_views(self.warnings@),
                unrecognized == |w: ParseWarningView| w.is_unrecognized_line(),
                n == all.take(index as int).filter(unrecognized).len(),
                n <= index,
            decreases self.warnings@.len() - index,
        {
            proof {
                reveal(Seq::filter);
                let seen = all.take(index as int);
                assert(all.take(index + 1) == seen.push(all[index as int]));
                assert(seen.push(all[index as int]).drop_last() == seen);
            }
            if let ParseWarning::UnrecognizedLine(_) = &self.warnings[index] {
                n = n + 1;
            }
            index = index + 1;
        }
        assert(all.take(all.len() as int) == all);
        n
    }
}

impl EntryAssembler {
    /// An assembler that has seen no line.
    pub fn new() -> (r: EntryAssembler)
        ensures
            r@ == AssemblerView::start(),
    {
        let r = EntryAssembler {
            entries: Vec::new(),
            current: LogEntry::default(),
            after_bind: false,
            warnings: Vec::new(),
        };
        assert(entry_views(r.entries@) =~= Seq::empty());
        assert(warning_views(r.warnings@) =~= Seq::empty());
        r
    }

    /// Whether the last token was a bound value or a continuation of one.
    pub fn after_bind(&self) -> (r: bool)
        ensures
            r == self@.after_bind,
    {
        self.after_bind
    }

    fn warn(&mut self, warning: ParseWarning)
        ensures
            final(self)@ == (AssemblerView {
                warnings: old(self)@.warnings.push(warning@),
                ..old(self)@
            }),
    {
        self.warnings.push(warning);
        assert(warning_views(self.warnings@) =~= warning_views(old(self).warnings@).push(
            warning@,
        ));
    }

    fn close_current(&mut self, number: &str)
        ensures
            final(self)@ == (AssemblerView {
                entries: old(self)@.closed_entries(),
                current: LogEntryView { query_no: number@, ..LogEntryView::empty() },
                ..old(self)@
            }),
    {
        let mut next = LogEntry::default();
        next.query_no = number.to_owned();
        std::mem::swap(&mut self.current, &mut next);
        if !next.query_no.as_str().is_empty() {
            self.entries.push(next);
            assert(entry_views(self.entries@) =~= entry_views(old(self).entries@).push(
                old(self).current@,
            ));
        }
    }

    fn add_bind(&mut self, payload: &str)
        ensures
            final(self)@ == old(self)@.step(TokenView::Bind(payload@)),
    {
        match parse_bind_value(payload) {
            Ok(value) => {
                self.current.bind_statements.push(value);
                self.after_bind = true;
                assert(texts(self.current.bind_statements@) =~= texts(
                    old(self).current.bind_statements@,
                ).push(value@));
            },
            Err(error) => {
                self.after_bind = false;
                self.warn(ParseWarning::MalformedBind { payload: payload.to_owned(), error });
            },
        }
    }

    fn continue_bind(&mut self, text: &str)
        ensures
            final(self)@ == old(self)@.step(TokenView::BindContinuation(text@)),
    {
        match self.current.bind_statements.pop() {
            Some(mut last) => {
                proof {
                    reveal_strlit("\n");
                    assert("\n"@ =~= seq!['\n']);
                }
                last.append("\n");
                last.append(text);
                self.current.bind_statements.push(last);
                assert(texts(self.current.bind_statements@) =~= texts(
                    old(self).current.bind_statements@,
                ).drop_last().push(
                    texts(old(self).current.bind_statements@).last() + seq!['\n'] + text@,
                ));
            },
            None => {
                assert(texts(self.current.bind_statements@) =~= texts(
                    old(self).current.bind_statements@,
                ));
                self.warn(ParseWarning::OrphanContinuation(text.to_owned()));
            },
        }
    }

    fn set_query(&mut self, text: &str)
        ensures
            final(self)@ == old(self)@.step(TokenView::Query(text@)),
    {
        let mut query = text.to_owned();
        std::mem::swap(&mut self.current.query, &mut query);
        self.after_bind = false;
        if !query.as_str().is_empty() {
            self.warn(ParseWarning::QueryOverwritten(query));
        }
    }

    /// Takes the next token of the trace.
    pub fn push(&mut self, token: Token<'_>)
        ensures
            final(self)@ == old(self)@.step(token@),
    {
        match token {
            Token::RecordStart(number) => {
                self.close_current(number);
                self.after_bind = false;
            },
            Token::Bind(payload) => {
                self.add_bind(payload);
            },
            Token::BindContinuation(text) => {
                self.continue_bind(text);
            },
            Token::Query(text) => {
                self.set_query(text);
            },
            Token::RecordEnd => {
                self.after_bind = false;
            },
            Token::SourceLocation(text) => {
                self.current.filename = text.to_owned();
                self.after_bind = false;
            },
            Token::Ignorable => {
                self.after_bind = false;
            },
            Token::Unrecognized(text) => {
                self.after_bind = false;
                self.warn(ParseWarning::UnrecognizedLine(text.to_owned()));
            },
        }
    }

    /// Closes the open entry, if there is one, and hands out the entries and
    /// the warnings.
    pub fn finish(self) -> (r: ParseOutcome)
        ensures
            entry_views(r.entries@) == self@.closed_entries(),
            warning_views(r.warnings@) == self@.warnings,
    {
        let mut entries = self.entries;
        if !self.current.query_no.as_str().is_empty() {
            entries.push(self.current);
            assert(entry_views(entries@) =~= entry_views(self.entries@).push(self.current@));
        }
        ParseOutcome { entries, warnings: self.warnings }
    }
}

/// `first`, and after it each text of `more` behind a line feed.
pub open spec fn joined(first: Seq<char>, more: Seq<Seq<char>>) -> Seq<char>
    decreases more.len(),
{
    if more.len() == 0 {
        first
    } else {
        joined(first, more.drop_last()) + seq!['\n'] + more.last()
    }
}

/// Whether `tail` goes on from `whole` as if the closed entries `entries`
/// and the warnings `warnings` had come before it.
pub open spec fn continues(
    whole: AssemblerView,
    entries: Seq<LogEntryView>,
    warnings: Seq<ParseWarningView>,
    tail: AssemblerView,
) -> bool {
    &&& whole.entries == entries + tail.entries
    &&& whole.current == tail.current
    &&& whole.after_bind == tail.after_bind
    &&& whole.warnings == warnings + tail.warnings
}

/// A step does not look at the closed entries or at the warnings: two states
/// that differ only in what was closed and passed over before take the same
/// step.
pub proof fn lemma_step_continues(
    whole: AssemblerView,
    entries: Seq<LogEntryView>,
    warnings: Seq<ParseWarningView>,
    tail: AssemblerView,
    token: TokenView,
)
    requires
        continues(whole, entries, warnings, tail),
    ensures
        continues(whole.step(token), entries, warnings, tail.step(token)),
        whole.step(token).closed_entries() == entries + tail.step(token).closed_entries(),
{
    let a = whole.step(token);
    let b = tail.step(token);
    assert(whole.closed_entries() =~= entries + tail.closed_entries());
    assert(a.entries =~= entries + b.entries);
    assert(a.warnings =~= warnings + b.warnings);
    assert(a.closed_entries() =~= entries + b.closed_entries());
}

/// The entries of an empty trace: none, and nothing is passed over.
pub proof fn lemma_empty_trace(patterns: PatternTexts)
    ensures
        patterns.assemble(lines_of(Seq::empty())).closed_entries() == Seq::<LogEntryView>::empty(),
        patterns.assemble(lines_of(Seq::empty())).warnings == Seq::<ParseWarningView>::empty(),
{
}

/// The numbers of a list of entries.
pub open spec fn numbers_of(entries: Seq<LogEntryView>) -> Seq<Seq<char>> {
    Seq::new(entries.len(), |i: int| entries[i].query_no)
}

/// A trace gives one entry for each of its lines that open an entry, in the
/// order of these lines and with their numbers: none is left out, none comes
/// twice, none changes its place.
pub proof fn lemma_one_entry_for_each_record_start(
    patterns: PatternTexts,
    lines: Seq<Seq<char>>,
)
    ensures
        numbers_of(patterns.assemble(lines).closed_entries()) == patterns.entry_numbers(lines),
    decreases lines.len(),
{
    if lines.len() == 0 {
        assert(numbers_of(AssemblerView::start().closed_entries()) =~= Seq::empty());
    } else {
        let before = patterns.assemble(lines.drop_last());
        let line = lines.last();
        let token = patterns.token(line, before.after_bind);
        let after = before.step(token);
        lemma_one_entry_for_each_record_start(patterns, lines.drop_last());
        if patterns.opens_entry(line) {
            let number = patterns.parsed(line)->0->QueryNo_0;
            assert(after.closed_entries() =~= before.closed_entries().push(after.current));
            assert(numbers_of(after.closed_entries()) =~= numbers_of(
                before.closed_entries(),
            ).push(number));
        } else {
            assert(after.is_open() == before.is_open() || token is RecordStart);
            assert(numbers_of(after.closed_entries()) =~= numbers_of(before.closed_entries()));
        }
    }
}

/// Entries do not reach into each other. Where `block` begins with a line
/// that opens an entry, the entries of `before` followed by `block` are the
/// entries of `before` and then those of `block` alone, and likewise the
/// warnings: no bound value, query or file name crosses the line that opens
/// an entry.
pub proof fn lemma_blocks_are_independent(
    patterns: PatternTexts,
    before: Seq<Seq<char>>,
    block: Seq<Seq<char>>,
)
    requires
        block.len() > 0,
        patterns.opens_entry(block[0]),
    ensures
        continues(
            patterns.assemble(before + block),
            patterns.assemble(before).closed_entries(),
            patterns.assemble(before).warnings,
            patterns.assemble(block),
        ),
        patterns.assemble(before + block).closed_entries() == patterns.assemble(
            before,
        ).closed_entries() + patterns.assemble(block).closed_entries(),
    decreases block.len(),
{
    let front = block.drop_last();
    let line = block.last();
    let start = patterns.assemble(before);
    assert((before + block).drop_last() =~= before + front);
    assert((before + block).last() == line);
    if front.len() == 0 {
        assert(before + front =~= before);
        assert(line == block[0]);
        let token = patterns.token(line, false);
        assert(patterns.token(line, start.after_bind) == token);
        let whole = start.step(token);
        let tail = AssemblerView::start().step(token);
        assert(patterns.assemble(front) == AssemblerView::start());
        assert(whole.entries =~= start.closed_entries() + tail.entries);
        assert(whole.warnings =~= start.warnings + tail.warnings);
        assert(whole.closed_entries() =~= start.closed_entries() + tail.closed_entries());
    } else {
        assert(front[0] == block[0]);
        lemma_blocks_are_independent(patterns, before, front);
        let whole = patterns.assemble(before + front);
        let tail = patterns.assemble(front);
        lemma_step_continues(
            whole,
            start.closed_entries(),
            start.warnings,
            tail,
            patterns.token(line, tail.after_bind),
        );
    }
}

/// A block of lines that begins with the line that opens entry `number`, and
/// holds no other line that opens an entry, gives that one entry.
pub proof fn lemma_one_block_one_entry(
    patterns: PatternTexts,
    block: Seq<Seq<char>>,
    number: Seq<char>,
)
    requires
        block.len() > 0,
        number.len() > 0,
        patterns.parsed(block[0]) == Some(ParsedLineView::QueryNo(number)),
        forall|i: int| 0 < i < block.len() ==> !(patterns.parsed(#[trigger] block[i]) matches Some(
            ParsedLineView::QueryNo(_),
        )),
    ensures
        patterns.assemble(block).entries.len() == 0,
        patterns.assemble(block).current.query_no == number,
        patterns.assemble(block).closed_entries().len() == 1,
        patterns.assemble(block).closed_entries()[0].query_no == number,
    decreases block.len(),
{
    let front = block.drop_last();
    if front.len() == 0 {
        assert(patterns.assemble(front) == AssemblerView::start());
        assert(block.last() == block[0]);
    } else {
        assert(front[0] == block[0]);
        assert forall|i: int| 0 < i < front.len() implies !(patterns.parsed(
            #[trigger] front[i],
        ) matches Some(ParsedLineView::QueryNo(_))) by {
            assert(front[i] == block[i]);
        }
        lemma_one_block_one_entry(patterns, front, number);
        assert(block.last() == block[block.len() - 1]);
    }
}

/// Two blocks of lines, each beginning with the line that opens an entry and
/// holding no other such line, give exactly two entries, in the order of the
/// blocks, and each entry is the one that its block gives alone.
pub proof fn lemma_two_blocks_two_entries(
    patterns: PatternTexts,
    first: Seq<Seq<char>>,
    second: Seq<Seq<char>>,
    first_number: Seq<char>,
    second_number: Seq<char>,
)
    requires
        first.len() > 0,
        second.len() > 0,
        first_number.len() > 0,
        second_number.len() > 0,
        patterns.parsed(first[0]) == Some(ParsedLineView::QueryNo(first_number)),
        patterns.parsed(second[0]) == Some(ParsedLineView::QueryNo(second_number)),
        forall|i: int| 0 < i < first.len() ==> !(patterns.parsed(#[trigger] first[i]) matches Some(
            ParsedLineView::QueryNo(_),
        )),
        forall|i: int|
            0 < i < second.len() ==> !(patterns.parsed(#[trigger] second[i]) matches Some(
                ParsedLineView::QueryNo(_),
            )),
    ensures
        patterns.assemble(first + second).closed_entries() == seq![
            patterns.assemble(first).closed_entries()[0],
            patterns.assemble(second).closed_entries()[0],
        ],
        patterns.assemble(first + second).closed_entries()[0].query_no == first_number,
        patterns.assemble(first + second).closed_entries()[1].query_no == second_number,
{
    lemma_one_block_one_entry(patterns, first, first_number);
    lemma_one_block_one_entry(patterns, second, second_number);
    lemma_blocks_are_independent(patterns, first, second);
    assert(patterns.assemble(first).closed_entries() + patterns.assemble(second).closed_entries()
        =~= seq![
        patterns.assemble(first).closed_entries()[0],
        patterns.assemble(second).closed_entries()[0],
    ]);
}

/// A bound value can run over several lines. A bind line whose payload
/// decodes to `value`, followed by raw lines, adds one bound value to the
/// open entry: `value`, and after it each of the raw lines behind a line
/// feed, in order. Nothing else changes.
pub proof fn lemma_bind_continuation(
    patterns: PatternTexts,
    before: Seq<Seq<char>>,
    bind_line: Seq<char>,
    payload: Seq<char>,
    value: Seq<char>,
    more: Seq<Seq<char>>,
)
    requires
        patterns.parsed(bind_line) == Some(ParsedLineView::Bind(payload)),
        decode_bind_value(payload) == Ok::<Seq<char>, DecodeError>(value),
        forall|i: int| 0 <= i < more.len() ==> patterns.is_raw(#[trigger] more[i]),
    ensures
        ({
            let start = patterns.assemble(before);
            let end = patterns.assemble(before.push(bind_line) + more);
            end == (AssemblerView {
                current: LogEntryView {
                    bind_statements: start.current.bind_statements.push(joined(value, more)),
                    ..start.current
                },
                after_bind: true,
                ..start
            })
        }),
    decreases more.len(),
{
    let start = patterns.assemble(before);
    let lines = before.push(bind_line) + more;
    if more.len() == 0 {
        assert(lines =~= before.push(bind_line));
        assert(lines.drop_last() =~= before);
    } else {
        let front = more.drop_last();
        let line = more.last();
        assert(lines.drop_last() =~= before.push(bind_line) + front);
        assert(lines.last() == line);
        assert forall|i: int| 0 <= i < front.len() implies patterns.is_raw(
            #[trigger] front[i],
        ) by {
            assert(front[i] == more[i]);
        }
        lemma_bind_continuation(patterns, before, bind_line, payload, value, front);
        assert(patterns.is_raw(more[more.len() - 1]));
        let mid = patterns.assemble(before.push(bind_line) + front);
        let binds = start.current.bind_statements.push(joined(value, front));
        assert(binds.drop_last().push(binds.last() + seq!['\n'] + line)
            =~= start.current.bind_statements.push(joined(value, more)));
    }
}

/// Reads a trace with the given line patterns.
pub fn parse_with(content: &str, patterns: &LinePatterns) -> (r: ParseOutcome)
    ensures
        entry_views(r.entries@) == patterns@.assemble(lines_of(content@)).closed_entries(),
        warning_views(r.warnings@) == patterns@.assemble(lines_of(content@)).warnings,
{
    let lines = split_lines(content);
    let ghost all = lines_of(content@);
    let mut assembler = EntryAssembler::new();
    let mut index: usize = 0;
    assert(all.take(0) =~= Seq::empty());
    while index < lines.len()
        invariant
            index <= lines@.len(),
            all == lines_of(content@),
            lines@.len() == all.len(),
            forall|i: int| 0 <= i < lines@.len() ==> lines@[i]@ == all[i],
            assembler@ == patterns@.assemble(all.take(index as int)),
        decreases lines@.len() - index,
    {
        let line = lines[index];
        let token = patterns.token(line, assembler.after_bind());
        proof {
            let seen = all.take(index as int);
            assert(all.take(index + 1) == seen.push(line@));
            assert(seen.push(line@).drop_last() == seen);
        }
        assembler.push(token);
        index = index + 1;
    }
    assert(all.take(all.len() as int) == all);
    assembler.finish()
}

/// Reads a trace: its entries, and what was passed over.
///
/// Fails only where the regex engine does not compile the line patterns.
pub fn parse_log(content: &str) -> (r: Result<ParseOutcome, PatternsRejected>)
    ensures
        r is Ok <==> PatternTexts::standard().accepted(),
        r matches Ok(outcome) ==> {
            let end = PatternTexts::standard().assemble(lines_of(content@));
            &&& entry_views(outcome.entries@) == end.closed_entries()
            &&& warning_views(outcome.warnings@) == end.warnings
        },
{
    match LinePatterns::new() {
        Some(patterns) => Ok(parse_with(content, &patterns)),
        None => Err(PatternsRejected),
    }
}

/// Reads a trace into its entries, in the order in which the trace opens
/// them.
///
/// Fails only where the regex engine does not compile the line patterns.
pub fn parse_log_entries(content: &str) -> (r: Result<Vec<LogEntry>, PatternsRejected>)
    ensures
        r is Ok <==> PatternTexts::standard().accepted(),
        r matches Ok(entries) ==> entry_views(entries@) == PatternTexts::standard().assemble(
            lines_of(content@),
        ).closed_entries(),
{
    match parse_log(content) {
        Ok(outcome) => Ok(outcome.entries),
        Err(e) => Err(e),
    }
}

} // verus!
