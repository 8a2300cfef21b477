//! Log entries, and the substitution of bind values for the placeholders of
//! a query.

use crate::text::{count_char, count_occurrences, lemma_count_char_prefix};
use vstd::prelude::*;
use vstd::string::StringExecFns;

verus! {

/// One query execution as the trace records it.
#[derive(Clone, Debug, PartialEq, Eq)]
pub struct LogEntry {
    /// The number in the `[Q<number>]` line that opens the entry.
    pub query_no: String,
    /// Where the query was issued from; empty where the trace does not say.
    pub filename: String,
    /// The query text, with a `?` for each bound value.
    pub query: String,
    /// The bound values, in the order in which the trace gives them.
    pub bind_statements: Vec<String>,
}

/// A log entry as plain text.
pub struct LogEntryView {
    pub query_no: Seq<char>,
    pub filename: Seq<char>,
    pub query: Seq<char>,
    pub bind_statements: Seq<Seq<char>>,
}

/// The texts of a list of strings.
pub open spec fn texts(strings: Seq<String>) -> Seq<Seq<char>> {
    Seq::new(strings.len(), |i: int| strings[i]@)
}

/// The views of a list of entries.
pub open spec fn entry_views(entries: Seq<LogEntry>) -> Seq<LogEntryView> {
    Seq::new(entries.len(), |i: int| entries[i]@)
}

impl View for LogEntry {
    type V = LogEntryView;

    open spec fn view(&self) -> LogEntryView {
        LogEntryView {
            query_no: self.query_no@,
            filename: self.filename@,
            query: self.query@,
            bind_statements: texts(self.bind_statements@),
        }
    }
}

impl LogEntryView {
    /// The entry with every field empty.
    pub open spec fn empty() -> LogEntryView {
        LogEntryView {
            query_no: Seq::empty(),
            filename: Seq::empty(),
            query: Seq::empty(),
            bind_statements: Seq::empty(),
        }
    }

    /// How many placeholders the query has.
    pub open spec fn placeholders(self) -> nat {
        count_char(self.query, '?')
    }

    /// Whether the entry has one bound value for each placeholder.
    pub open spec fn arity_matches(self) -> bool {
        self.placeholders() == self.bind_statements.len()
    }
}

impl Default for LogEntry {
    fn default() -> (r: LogEntry)
        ensures
            r@ == LogEntryView::empty(),
    {
        let r = LogEntry {
            query_no: String::new(),
            filename: String::new(),
            query: String::new(),
            bind_statements: Vec::new(),
        };
        assert(r@.bind_statements =~= Seq::empty());
        r
    }
}

/// A query whose placeholders and bound values differ in number.
#[derive(Clone, Copy, Debug, PartialEq, Eq, Structural)]
pub struct ArityMismatch {
    /// The number of placeholders in the query.
    pub expected: usize,
    /// The number of bound values.
    pub actual: usize,
}

/// Both counts of a mismatch, as numbers without a bound.
pub struct ArityMismatchView {
    pub expected: nat,
    pub actual: nat,
}

impl View for ArityMismatch {
    type V = ArityMismatchView;

    open spec fn view(&self) -> ArityMismatchView {
        ArityMismatchView { expected: self.expected as nat, actual: self.actual as nat }
    }
}

/// The first entry of a list that has not one bound value for each
/// placeholder.
#[derive(Clone, Copy, Debug, PartialEq, Eq, Structural)]
pub struct InvalidEntry {
    /// Where the entry stands in the list.
    pub index: usize,
    /// Its two counts.
    pub mismatch: ArityMismatch,
}

/// The pieces that the placeholders cut `template` into: one more than it
/// has placeholders, in order, none of them holding a `?`.
pub open spec fn segments(template: Seq<char>) -> Seq<Seq<char>>
    decreases template.len(),
{
    if template.len() == 0 {
        seq![Seq::empty()]
    } else {
        let before = segments(template.drop_last());
        if template.last() == '?' {
            before.push(Seq::empty())
        } else {
            before.drop_last().push(before.last().push(template.last()))
        }
    }
}

/// The first segment, the first value, the second segment, the second value
/// and so on, up to the last segment, with nothing between them.
pub open spec fn interleave(segments: Seq<Seq<char>>, values: Seq<Seq<char>>) -> Seq<char>
    recommends
        segments.len() == values.len() + 1,
    decreases segments.len(),
{
    if segments.len() == 0 {
        Seq::empty()
    } else if segments.len() == 1 {
        segments[0]
    } else {
        interleave(segments.drop_last(), values.drop_last()) + values.last() + segments.last()
    }
}

/// `template` with its placeholders replaced by `values`, in order.
pub open spec fn substitute(template: Seq<char>, values: Seq<Seq<char>>) -> Seq<char>
    recommends
        count_char(template, '?') == values.len(),
{
    interleave(segments(template), values)
}

/// What substitution gives: the filled query where there is one value for
/// each placeholder, and both counts where there is not.
pub open spec fn substitution(template: Seq<char>, values: Seq<Seq<char>>) -> Result<
    Seq<char>,
    ArityMismatchView,
> {
    let expected = count_char(template, '?');
    if expected == values.len() {
        Ok(substitute(template, values))
    } else {
        Err(ArityMismatchView { expected, actual: values.len() })
    }
}

/// What a substitution returned, with the text taken by its view.
pub open spec fn substitution_view(r: Result<String, ArityMismatch>) -> Result<
    Seq<char>,
    ArityMismatchView,
> {
    match r {
        Ok(s) => Ok(s@),
        Err(e) => Err(e@),
    }
}

/// A template has one more segment than it has placeholders.
pub proof fn lemma_segments_len(template: Seq<char>)
    ensures
        segments(template).len() == count_char(template, '?') + 1,
    decreases template.len(),
{
    if template.len() > 0 {
        lemma_segments_len(template.drop_last());
    }
}

/// No segment holds a placeholder.
pub proof fn lemma_segments_hold_no_placeholder(template: Seq<char>)
    ensures
        forall|i: int, j: int|
            0 <= i < segments(template).len() && 0 <= j < segments(template)[i].len()
                ==> segments(template)[i][j] != '?',
    decreases template.len(),
{
    if template.len() > 0 {
        lemma_segments_hold_no_placeholder(template.drop_last());
        lemma_segments_len(template.drop_last());
    }
}

/// Substitution, one character further: a placeholder adds the next value,
/// any other character adds itself.
pub proof fn lemma_substitute_push(seen: Seq<char>, c: char, values: Seq<Seq<char>>)
    requires
        count_char(seen, '?') < values.len() || c != '?',
        count_char(seen, '?') <= values.len(),
    ensures
        ({
            let k = count_char(seen, '?') as int;
            &&& c == '?' ==> substitute(seen.push(c), values.take(k + 1)) == substitute(
                seen,
                values.take(k),
            ) + values[k]
            &&& c != '?' ==> substitute(seen.push(c), values.take(k)) == substitute(
                seen,
                values.take(k),
            ).push(c)
        }),
{
    let k = count_char(seen, '?') as int;
    let before = segments(seen);
    let after = segments(seen.push(c));
    lemma_segments_len(seen);
    assert(seen.push(c).drop_last() == seen);
    if c == '?' {
        assert(after == before.push(Seq::empty()));
        assert(after.drop_last() == before);
        assert(values.take(k + 1).drop_last() == values.take(k));
        assert(values.take(k + 1).last() == values[k]);
        assert(interleave(after, values.take(k + 1)) == interleave(before, values.take(k))
            + values[k] + Seq::<char>::empty());
    } else {
        assert(after == before.drop_last().push(before.last().push(c)));
        if before.len() > 1 {
            assert(after.drop_last() == before.drop_last());
            assert(interleave(after, values.take(k)) == interleave(
                before.drop_last(),
                values.take(k).drop_last(),
            ) + values.take(k).last() + before.last().push(c));
        }
    }
}

/// Substitution is a function of the query and the values: two results for
/// the same query and the same values are the same.
pub proof fn lemma_substitution_is_deterministic(
    query: Seq<char>,
    values: Seq<Seq<char>>,
    first: Result<String, ArityMismatch>,
    second: Result<String, ArityMismatch>,
)
    requires
        substitution_view(first) == substitution(query, values),
        substitution_view(second) == substitution(query, values),
    ensures
        substitution_view(first) == substitution_view(second),
{
}

/// Substitution succeeds exactly where the query has as many placeholders as
/// there are values, and where it fails it reports both numbers.
pub proof fn lemma_substitution_succeeds_iff_arity_matches(
    query: Seq<char>,
    values: Seq<Seq<char>>,
)
    ensures
        substitution(query, values) is Ok <==> count_char(query, '?') == values.len(),
        substitution(query, values) matches Ok(replaced) ==> replaced == substitute(query, values),
        substitution(query, values) matches Err(e) ==> e.expected == count_char(query, '?')
            && e.actual == values.len(),
{
}

/// A list of `n` values, each a single `?`.
pub open spec fn placeholders_again(n: nat) -> Seq<Seq<char>> {
    Seq::new(n, |i: int| seq!['?'])
}

/// Substitution keeps everything but the placeholders, and fills them from
/// left to right: with a `?` for each value, the query comes back as it was.
pub proof fn lemma_substitute_keeps_the_rest(query: Seq<char>)
    ensures
        substitute(query, placeholders_again(count_char(query, '?'))) == query,
    decreases query.len(),
{
    if query.len() > 0 {
        let seen = query.drop_last();
        let c = query.last();
        let k = count_char(seen, '?');
        let values = placeholders_again(count_char(query, '?'));
        lemma_substitute_keeps_the_rest(seen);
        assert(seen.push(c) == query);
        assert(values.take(k as int) == placeholders_again(k));
        lemma_substitute_push(seen, c, values);
        if c == '?' {
            assert(values.take(k as int + 1) == values);
            assert(seen + seq!['?'] == query);
        }
    } else {
        assert(placeholders_again(0) =~= Seq::empty());
    }
}

/// A query without placeholders is its own substitution.
pub proof fn lemma_substitute_without_placeholders(query: Seq<char>)
    requires
        count_char(query, '?') == 0,
    ensures
        substitution(query, Seq::empty()) == Ok::<Seq<char>, ArityMismatchView>(query),
{
    lemma_substitute_keeps_the_rest(query);
    assert(placeholders_again(0) =~= Seq::empty());
}

impl LogEntry {
    /// Whether the entry has one bound value for each placeholder.
    pub fn has_matching_arity(&self) -> (r: bool)
        ensures
            r == self@.arity_matches(),
    {
        self.check_arity().is_ok()
    }

    /// Both counts of the entry, where it has not one bound value for each
    /// placeholder.
    pub fn check_arity(&self) -> (r: Result<(), ArityMismatch>)
        ensures
            r is Ok <==> self@.arity_matches(),
            r matches Err(e) ==> e@.expected == self@.placeholders() && e@.actual
                == self@.bind_statements.len(),
    {
        let expected = count_occurrences(self.query.as_str(), '?');
        let actual = self.bind_statements.len();
        if expected == actual {
            Ok(())
        } else {
            Err(ArityMismatch { expected, actual })
        }
    }

    /// Checks that every entry has one bound value for each placeholder, and
    /// reports the first that has not.
    pub fn validate_entries(entries: &[LogEntry]) -> (r: Result<(), InvalidEntry>)
        ensures
            r is Ok <==> forall|i: int| 0 <= i < entries@.len() ==> entries@[i]@.arity_matches(),
            r matches Err(e) ==> {
                &&& e.index < entries@.len()
                &&& forall|i: int| 0 <= i < e.index ==> entries@[i]@.arity_matches()
                &&& e.mismatch.expected == entries@[e.index as int]@.placeholders()
                &&& e.mismatch.actual == entries@[e.index as int]@.bind_statements.len()
                &&& e.mismatch.expected != e.mismatch.actual
            },
    {
        let mut index: usize = 0;
        while index < entries.len()
            invariant
                index <= entries@.len(),
                forall|i: int| 0 <= i < index ==> entries@[i]@.arity_matches(),
            decreases entries@.len() - index,
        {
            if let Err(mismatch) = entries[index].check_arity() {
                return Err(InvalidEntry { index, mismatch });
            }
            index = index + 1;
        }
        Ok(())
    }

    /// Parts a list of entries in two, each in the order of the list: those
    /// with one bound value for each placeholder, and the others.
    pub fn partition_by_arity(entries: Vec<LogEntry>) -> (r: (Vec<LogEntry>, Vec<LogEntry>))
        ensures
            entry_views(r.0@) == entry_views(entries@).filter(
                |e: LogEntryView| e.arity_matches(),
            ),
            entry_views(r.1@) == entry_views(entries@).filter(
                |e: LogEntryView| !e.arity_matches(),
            ),
    {
        let ghost all = entry_views(entries@);
        let ghost good = |e: LogEntryView| e.arity_matches();
        let ghost bad = |e: LogEntryView| !e.arity_matches();
        let mut kept: Vec<LogEntry> = Vec::new();
        let mut rejected: Vec<LogEntry> = Vec::new();
        proof {
            reveal(Seq::filter);
            assert(all.take(0) =~= Seq::empty());
            assert(entry_views(kept@) =~= Seq::empty());
            assert(entry_views(rejected@) =~= Seq::empty());
        }
        for entry in it: entries.into_iter()
            invariant
                it.seq() == entries@,
                all == entry_views(entries@),
                good == |e: LogEntryView| e.arity_matches(),
                bad == |e: LogEntryView| !e.arity_matches(),
                entry_views(kept@) == all.take(it.index() as int).filter(good),
                entry_views(rejected@) == all.take(it.index() as int).filter(bad),
        {
            proof {
                reveal(Seq::filter);
                let seen = all.take(it.index() as int);
                assert(all.take(it.index() + 1) == seen.push(entry@));
                assert(seen.push(entry@).drop_last() == seen);
            }
            let ghost kept_before = entry_views(kept@);
            let ghost rejected_before = entry_views(rejected@);
            if entry.has_matching_arity() {
                kept.push(entry);
                assert(entry_views(kept@) =~= kept_before.push(entry@));
            } else {
                rejected.push(entry);
                assert(entry_views(rejected@) =~= rejected_before.push(entry@));
            }
        }
        proof {
            assert(all.take(all.len() as int) == all);
        }
        (kept, rejected)
    }

    /// Replaces the placeholders of `query` by `bind_statements`, the first
    /// `?` by the first value and so on. Nothing else of the query changes.
    /// Where the two differ in number nothing is replaced, and the error
    /// holds both counts.
    pub fn replace_query_params(query: &str, bind_statements: &[String]) -> (r: Result<
        String,
        ArityMismatch,
    >)
        ensures
            substitution_view(r) == substitution(query@, texts(bind_statements@)),
            r is Ok <==> count_char(query@, '?') == bind_statements@.len(),
    {
        let expected = count_occurrences(query, '?');
        if expected != bind_statements.len() {
            return Err(ArityMismatch { expected, actual: bind_statements.len() });
        }
        let ghost values = texts(bind_statements@);
        let mut result = String::new();
        let mut next: usize = 0;
        proof {
            assert(values.take(0) =~= Seq::empty());
            assert(query@.take(0) =~= Seq::empty());
        }
        for ch in it: query.chars()
            invariant
                it.seq() == query@,
                values == texts(bind_statements@),
                count_char(query@, '?') == bind_statements@.len(),
                next == count_char(query@.take(it.index() as int), '?'),
                result@ == substitute(query@.take(it.index() as int), values.take(next as int)),
        {
            proof {
                let seen = query@.take(it.index() as int);
                assert(query@.take(it.index() + 1) == seen.push(ch));
                assert(seen.push(ch).drop_last() == seen);
                lemma_count_char_prefix(query@, it.index() + 1, '?');
                lemma_substitute_push(seen, ch, values);
            }
            if ch == '?' {
                result.append(bind_statements[next].as_str());
                next = next + 1;
            } else {
                result.push(ch);
            }
        }
        proof {
            assert(query@.take(query@.len() as int) == query@);
            assert(values.take(next as int) == values);
        }
        Ok(result)
    }
}

} // verus!
