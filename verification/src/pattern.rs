//! Regular expressions: the one place where the `regex` crate is called.
//!
//! Nothing about the matching engine is proved here. What a search returns is
//! given a name, and the functions below state, without proof, that a call
//! returns what the name says for the pattern text and the haystack.

use vstd::prelude::*;
use vstd::string::StringSliceAdditionalSpecFns;
use vstd::utf8::is_char_boundary;

verus! {

/// `regex::Regex`, a compiled regular expression. Nothing is known of what
/// is inside one.
#[verifier::external_type_specification]
#[verifier::external_body]
pub struct ExRegex(regex::Regex);

/// Whether `regex::Regex::new` compiles `pattern`.
pub uninterp spec fn regex_accepts(pattern: Seq<char>) -> bool;

/// The byte offsets `(start, end)` of the leftmost match of `pattern` in
/// `haystack`, as `regex::Regex::find` reports them; `None` without a match.
pub uninterp spec fn regex_find(pattern: Seq<char>, haystack: Seq<char>) -> Option<(int, int)>;

/// The capture groups of the leftmost match of `pattern` in `haystack`, as
/// `regex::Regex::captures` reports them: entry `i` is the text of group `i`,
/// or `None` where the group took no part in the match.
pub uninterp spec fn regex_captures(pattern: Seq<char>, haystack: Seq<char>) -> Seq<
    Option<Seq<char>>,
>;

/// The text that `regex::Regex::replace_all` makes of `haystack`.
pub uninterp spec fn regex_replace_all(
    pattern: Seq<char>,
    haystack: Seq<char>,
    replacement: Seq<char>,
) -> Seq<char>;

/// Whether `pattern` matches anywhere in `haystack`.
pub open spec fn regex_matches(pattern: Seq<char>, haystack: Seq<char>) -> bool {
    regex_find(pattern, haystack) is Some
}

/// Group `index` of a list of capture groups: `None` where there is no such
/// group or it took no part in the match.
pub open spec fn group_at(groups: Seq<Option<Seq<char>>>, index: int) -> Option<Seq<char>> {
    if 0 <= index < groups.len() {
        groups[index]
    } else {
        None
    }
}

/// The view of an optional string slice.
pub open spec fn opt_text(s: Option<&str>) -> Option<Seq<char>> {
    match s {
        Some(t) => Some(t@),
        None => None,
    }
}

/// A compiled regular expression together with the text it was compiled from.
///
/// A `Pattern` is only ever built by [`Pattern::new`], so `re` is always the
/// expression that `regex::Regex::new` made of `source`.
pub struct Pattern {
    source: String,
    re: regex::Regex,
}

impl View for Pattern {
    type V = Seq<char>;

    closed spec fn view(&self) -> Seq<char> {
        self.source@
    }
}

impl Pattern {
    /// Calls `regex::Regex::new`. Trusted: the call succeeds exactly on the
    /// patterns that `regex_accepts` names, and the value keeps the pattern text.
    #[verifier::external_body]
    fn compile(source: &str) -> (r: Option<Pattern>)
        ensures
            r is Some <==> regex_accepts(source@),
            r matches Some(p) ==> p@ == source@,
    {
        regex::Regex::new(source).ok().map(|re| Pattern { source: source.to_owned(), re })
    }

    /// Calls `regex::Regex::find` and keeps the end of the match. Trusted: the
    /// offset is the one that `regex_find` names, and, as the crate documents
    /// for every match offset, it lies on a character boundary of the haystack.
    #[verifier::external_body]
    pub(crate) fn find_end(&self, haystack: &str) -> (r: Option<usize>)
        ensures
            r is Some <==> regex_find(self@, haystack@) is Some,
            r matches Some(e) ==> (regex_find(self@, haystack@) matches Some(m) && m.1 == e)
                && is_char_boundary(haystack.spec_bytes(), e as int),
    {
        self.re.find(haystack).map(|m| m.end())
    }

    /// Calls `regex::Regex::is_match`. Trusted: it is true exactly when
    /// `regex::Regex::find` would report a match.
    #[verifier::external_body]
    pub(crate) fn has_match(&self, haystack: &str) -> (r: bool)
        ensures
            r == regex_matches(self@, haystack@),
    {
        self.re.is_match(haystack)
    }

    /// Calls `regex::Regex::captures`, then `regex::Captures::get`. Trusted:
    /// the outer `Option` says whether there is a match, the inner one is the
    /// text of group `index` among the groups that `regex_captures` names.
    #[verifier::external_body]
    pub(crate) fn group<'a>(&self, haystack: &'a str, index: usize) -> (r: Option<
        Option<&'a str>,
    >)
        ensures
            r is Some <==> regex_matches(self@, haystack@),
            r matches Some(g) ==> opt_text(g) == group_at(
                regex_captures(self@, haystack@),
                index as int,
            ),
    {
        self.re.captures(haystack).map(|c| c.get(index).map(|m| m.as_str()))
    }

    /// Calls `regex::Regex::replace_all` with a replacement string. Trusted:
    /// the result is the text that `regex_replace_all` names, and, as the
    /// crate documents, the haystack itself where nothing matches.
    #[verifier::external_body]
    pub(crate) fn substitute_all(&self, haystack: &str, replacement: &str) -> (r: String)
        ensures
            r@ == regex_replace_all(self@, haystack@, replacement@),
            !regex_matches(self@, haystack@) ==> r@ == haystack@,
    {
        self.re.replace_all(haystack, replacement).into_owned()
    }

    /// Compiles `source`. `None` when the regex engine rejects it.
    pub fn new(source: &str) -> (r: Option<Pattern>)
        ensures
            r is Some <==> regex_accepts(source@),
            r matches Some(p) ==> p@ == source@,
    {
        Pattern::compile(source)
    }

    /// Whether the pattern matches anywhere in `haystack`.
    pub fn is_match(&self, haystack: &str) -> (r: bool)
        ensures
            r == regex_matches(self@, haystack@),
    {
        self.has_match(haystack)
    }
}

} // verus!
