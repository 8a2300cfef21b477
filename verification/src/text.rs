//! Text as a sequence of characters: the vocabulary that the contracts of the
//! parser are written in, and the string operations that meet it.

use vstd::prelude::*;
use vstd::std_specs::iter::IteratorSpec;
use vstd::string::StrSliceExecFns;
use vstd::utf8::encode_utf8;

verus! {

/// Whether `c` has the Unicode `White_Space` property.
pub open spec fn is_white_space(c: char) -> bool {
    let u = c as u32;
    ||| 0x09 <= u <= 0x0D
    ||| u == 0x20
    ||| u == 0x85
    ||| u == 0xA0
    ||| u == 0x1680
    ||| 0x2000 <= u <= 0x200A
    ||| u == 0x2028
    ||| u == 0x2029
    ||| u == 0x202F
    ||| u == 0x205F
    ||| u == 0x3000
}

/// How many characters at the front of `s` are whitespace.
pub open spec fn leading_white_space(s: Seq<char>) -> nat
    decreases s.len(),
{
    if s.len() > 0 && is_white_space(s[0]) {
        1 + leading_white_space(s.drop_first())
    } else {
        0
    }
}

/// How many characters at the back of `s` are whitespace.
pub open spec fn trailing_white_space(s: Seq<char>) -> nat
    decreases s.len(),
{
    if s.len() > 0 && is_white_space(s.last()) {
        1 + trailing_white_space(s.drop_last())
    } else {
        0
    }
}

/// `s` without its leading and trailing whitespace.
pub open spec fn trim(s: Seq<char>) -> Seq<char> {
    let from = leading_white_space(s) as int;
    let to = s.len() - trailing_white_space(s);
    if from < to {
        s.subrange(from, to)
    } else {
        Seq::empty()
    }
}

/// How many characters at the front of `s` are no whitespace.
pub open spec fn leading_word(s: Seq<char>) -> nat
    decreases s.len(),
{
    if s.len() > 0 && !is_white_space(s[0]) {
        1 + leading_word(s.drop_first())
    } else {
        0
    }
}

/// The first word of `s`: what stands between the whitespace at its front
/// and the next whitespace after that.
pub open spec fn first_word(s: Seq<char>) -> Seq<char> {
    let rest = s.skip(leading_white_space(s) as int);
    rest.take(leading_word(rest) as int)
}

/// The index of the first `c` in `s`, or `s.len()` where `s` holds none.
pub open spec fn position_of(s: Seq<char>, c: char) -> nat
    decreases s.len(),
{
    if s.len() == 0 || s[0] == c {
        0
    } else {
        1 + position_of(s.drop_first(), c)
    }
}

/// Number of occurrences of `c` in `s`.
pub open spec fn count_char(s: Seq<char>, c: char) -> nat
    decreases s.len(),
{
    if s.len() == 0 {
        0
    } else {
        count_char(s.drop_last(), c) + if s.last() == c {
            1nat
        } else {
            0nat
        }
    }
}

/// A text never has more characters than its UTF-8 encoding has bytes.
pub proof fn lemma_chars_le_bytes(s: Seq<char>)
    ensures
        s.len() <= encode_utf8(s).len(),
    decreases s.len(),
{
    if s.len() > 0 {
        lemma_chars_le_bytes(s.drop_first());
    }
}

/// `position_of` finds a `c`, nothing before it is a `c`, and it is the
/// length of `s` exactly when `s` holds no `c`.
pub proof fn lemma_position_of(s: Seq<char>, c: char)
    ensures
        position_of(s, c) <= s.len(),
        position_of(s, c) < s.len() ==> s[position_of(s, c) as int] == c,
        forall|i: int| 0 <= i < position_of(s, c) ==> s[i] != c,
    decreases s.len(),
{
    if s.len() == 0 || s[0] == c {
    } else {
        let rest = s.drop_first();
        lemma_position_of(rest, c);
        assert forall|i: int| 0 <= i < position_of(s, c) implies s[i] != c by {
            if i > 0 {
                assert(s[i] == rest[i - 1]);
            }
        }
    }
}

/// Whitespace counted from the front grows by one when a whitespace character
/// is appended to a text that is all whitespace, and is unchanged otherwise.
pub proof fn lemma_leading_push(s: Seq<char>, c: char)
    ensures
        leading_white_space(s) <= s.len(),
        leading_white_space(s.push(c)) == if leading_white_space(s) == s.len() && is_white_space(
            c,
        ) {
            s.len() + 1
        } else {
            leading_white_space(s)
        },
    decreases s.len(),
{
    let t = s.push(c);
    if s.len() == 0 {
        assert(t[0] == c);
        assert(t.drop_first() =~= Seq::<char>::empty());
        assert(leading_white_space(t.drop_first()) == 0);
    } else {
        assert(t[0] == s[0]);
        assert(t.drop_first() =~= s.drop_first().push(c));
        lemma_leading_push(s.drop_first(), c);
    }
}

/// A prefix of a text holds at most as many `c` as the text.
pub proof fn lemma_count_char_prefix(s: Seq<char>, n: int, c: char)
    requires
        0 <= n <= s.len(),
    ensures
        count_char(s.take(n), c) <= count_char(s, c),
        count_char(s, c) <= s.len(),
    decreases s.len(),
{
    if s.len() > 0 {
        let front = s.drop_last();
        if n == s.len() {
            assert(s.take(n) == s);
            lemma_count_char_prefix(front, n - 1, c);
        } else {
            assert(front.take(n) == s.take(n));
            lemma_count_char_prefix(front, n, c);
        }
    } else {
        assert(s.take(n) == s);
    }
}

/// `std::string::String::push` appends one character.
pub assume_specification[ String::push ](s: &mut String, c: char)
    ensures
        final(s)@ == old(s)@.push(c),
;

/// The count of leading whitespace is the only index before which all is
/// whitespace and at which there is none, or the text ends.
pub proof fn lemma_leading_white_space_is(s: Seq<char>, n: int)
    requires
        0 <= n <= s.len(),
        forall|i: int| 0 <= i < n ==> is_white_space(s[i]),
        n < s.len() ==> !is_white_space(s[n]),
    ensures
        leading_white_space(s) == n,
    decreases s.len(),
{
    if n > 0 {
        let rest = s.drop_first();
        assert forall|i: int| 0 <= i < n - 1 implies is_white_space(rest[i]) by {
            assert(rest[i] == s[i + 1]);
        }
        lemma_leading_white_space_is(rest, n - 1);
    }
}

/// The length of the leading word is the only index before which nothing is
/// whitespace and at which there is whitespace, or the text ends.
pub proof fn lemma_leading_word_is(s: Seq<char>, n: int)
    requires
        0 <= n <= s.len(),
        forall|i: int| 0 <= i < n ==> !is_white_space(s[i]),
        n < s.len() ==> is_white_space(s[n]),
    ensures
        leading_word(s) == n,
    decreases s.len(),
{
    if n > 0 {
        let rest = s.drop_first();
        assert forall|i: int| 0 <= i < n - 1 implies !is_white_space(rest[i]) by {
            assert(rest[i] == s[i + 1]);
        }
        lemma_leading_word_is(rest, n - 1);
    }
}

/// The number of characters of a string slice fits in `usize`.
pub fn char_len_bound(s: &str)
    ensures
        s@.len() <= usize::MAX,
{
    let _ = s.as_bytes().len();
    proof {
        lemma_chars_le_bytes(s@);
    }
}

/// Whether `c` is a whitespace character.
pub fn is_space(c: char) -> (r: bool)
    ensures
        r == is_white_space(c),
{
    let u: u32 = c as u32;
    (0x09 <= u && u <= 0x0D) || u == 0x20 || u == 0x85 || u == 0xA0 || u == 0x1680 || (0x2000 <= u
        && u <= 0x200A) || u == 0x2028 || u == 0x2029 || u == 0x202F || u == 0x205F || u == 0x3000
}

/// Counts the occurrences of `c` in `s`.
pub fn count_occurrences(s: &str, c: char) -> (n: usize)
    ensures
        n == count_char(s@, c),
{
    char_len_bound(s);
    let mut n: usize = 0;
    for ch in it: s.chars()
        invariant
            it.seq() == s@,
            s@.len() <= usize::MAX,
            n == count_char(s@.take(it.index() as int), c),
            n <= it.index(),
    {
        assert(s@.take(it.index() + 1).drop_last() == s@.take(it.index() as int));
        if ch == c {
            n = n + 1;
        }
    }
    assert(s@.take(s@.len() as int) == s@);
    n
}

/// Whether `s` begins with `prefix`.
pub fn starts_with_str(s: &str, prefix: &str) -> (r: bool)
    ensures
        r == prefix@.is_prefix_of(s@),
{
    let mut rest = s.chars();
    for ch in it: prefix.chars()
        invariant
            it.seq() == prefix@,
            rest.obeys_prophetic_iter_laws(),
            it.index() <= s@.len(),
            rest.remaining() == s@.skip(it.index() as int),
            s@.take(it.index() as int) == prefix@.take(it.index() as int),
    {
        let ghost k = it.index() as int;
        match rest.next() {
            Some(c) => {
                assert(c == s@[k]);
                if c != ch {
                    return false;
                }
                assert(s@.skip(k).drop_first() == s@.skip(k + 1));
                assert(s@.take(k + 1) == s@.take(k).push(c));
                assert(prefix@.take(k + 1) == prefix@.take(k).push(ch));
            },
            None => {
                return false;
            },
        }
    }
    assert(prefix@.take(prefix@.len() as int) == prefix@);
    true
}

/// `s` without its first `n` characters.
pub fn skip_chars(s: &str, n: usize) -> (r: &str)
    requires
        n <= s@.len(),
    ensures
        r@ == s@.skip(n as int),
{
    let len = s.unicode_len();
    s.substring_char(n, len)
}

/// The first `n` characters of `s`, or all of `s` where it has fewer.
pub fn first_chars(s: &str, n: usize) -> (r: &str)
    ensures
        r@ == s@.take(if n <= s@.len() { n as int } else { s@.len() as int }),
{
    let len = s.unicode_len();
    if n < len {
        s.substring_char(0, n)
    } else {
        assert(s@.take(s@.len() as int) == s@);
        s
    }
}

/// `s` without the `prefix` it begins with; `None` where it does not begin
/// with it.
pub fn strip_prefix_str<'a>(s: &'a str, prefix: &str) -> (r: Option<&'a str>)
    ensures
        r is Some <==> prefix@.is_prefix_of(s@),
        r matches Some(rest) ==> rest@ == s@.skip(prefix@.len() as int),
{
    if starts_with_str(s, prefix) {
        Some(skip_chars(s, prefix.unicode_len()))
    } else {
        None
    }
}

/// Whether `a` and `b` hold the same text.
pub fn same_text(a: &str, b: &str) -> (r: bool)
    ensures
        r == (a@ == b@),
{
    let r = a.unicode_len() == b.unicode_len() && starts_with_str(a, b);
    proof {
        if r {
            assert(a@.subrange(0, b@.len() as int) == a@);
        }
    }
    r
}

/// The first word of `s`.
pub fn first_word_str(s: &str) -> (r: &str)
    ensures
        r@ == first_word(s@),
{
    char_len_bound(s);
    let mut from: usize = 0;
    let mut to: usize = 0;
    let mut at: usize = 0;
    let mut in_front = true;
    let mut in_word = true;
    for ch in it: s.chars()
        invariant
            it.seq() == s@,
            s@.len() <= usize::MAX,
            at == it.index(),
            from <= to <= at,
            forall|i: int| 0 <= i < from ==> is_white_space(s@[i]),
            forall|i: int| from <= i < to ==> !is_white_space(s@[i]),
            in_front ==> from == at,
            !in_front ==> !is_white_space(s@[from as int]),
            in_word ==> to == at,
            !in_word ==> to < at && is_white_space(s@[to as int]),
            !in_word ==> !in_front,
    {
        let space = is_space(ch);
        if in_front {
            if space {
                from = at + 1;
                to = at + 1;
            } else {
                in_front = false;
                to = at + 1;
            }
        } else if in_word {
            if space {
                in_word = false;
            } else {
                to = at + 1;
            }
        }
        at = at + 1;
    }
    proof {
        lemma_leading_white_space_is(s@, from as int);
        let rest = s@.skip(from as int);
        assert forall|i: int| 0 <= i < to - from implies !is_white_space(rest[i]) by {
            assert(rest[i] == s@[i + from]);
        }
        lemma_leading_word_is(rest, to - from);
        assert(rest.take(to - from) == s@.subrange(from as int, to as int));
    }
    s.substring_char(from, to)
}

/// `s` without its leading and trailing whitespace.
pub fn trim_str(s: &str) -> (r: &str)
    ensures
        r@ == trim(s@),
{
    char_len_bound(s);
    let mut from: usize = 0;
    let mut to: usize = 0;
    let mut at: usize = 0;
    for ch in it: s.chars()
        invariant
            it.seq() == s@,
            s@.len() <= usize::MAX,
            at == it.index(),
            from == leading_white_space(s@.take(it.index() as int)),
            to == it.index() - trailing_white_space(s@.take(it.index() as int)),
            from <= at,
            to <= at,
    {
        proof {
            let seen = s@.take(it.index() as int);
            assert(s@.take(it.index() + 1) == seen.push(ch));
            assert(seen.push(ch).drop_last() == seen);
            lemma_leading_push(seen, ch);
        }
        let space = is_space(ch);
        if space && from == at {
            from = at + 1;
        }
        at = at + 1;
        if !space {
            to = at;
        }
    }
    assert(s@.take(s@.len() as int) == s@);
    if from < to {
        s.substring_char(from, to)
    } else {
        s.substring_char(0, 0)
    }
}

} // verus!
