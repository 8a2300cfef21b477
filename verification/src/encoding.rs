//! Characters and the bytes that encode them: what is needed to cut a string
//! slice at a byte offset and still say what characters each side holds.

use crate::text::position_of;
use vstd::prelude::*;
use vstd::utf8::{
    encode_scalar, encode_utf8, encode_utf8_decode_utf8, encode_utf8_first_scalar,
    encode_utf8_valid_utf8, is_char_boundary, is_scalar, length_of_first_scalar,
    pop_first_scalar, valid_utf8,
};

verus! {

/// A scalar below `0x80` is encoded as the one byte that it is. Every byte of
/// the encoding of any other scalar is `0x80` or more.
pub proof fn lemma_scalar_bytes(v: u32)
    requires
        is_scalar(v),
    ensures
        1 <= encode_scalar(v).len() <= 4,
        v < 0x80 ==> encode_scalar(v) == seq![v as u8],
        v >= 0x80 ==> forall|j: int|
            0 <= j < encode_scalar(v).len() ==> #[trigger] encode_scalar(v)[j] >= 0x80,
{
    assert(v < 0x80 ==> (v & 0x7F) as u8 == v as u8) by (bit_vector);
    assert((0xC0u8 | ((v >> 6) & 0x1F) as u8) >= 0x80) by (bit_vector);
    assert((0xE0u8 | ((v >> 12) & 0x0F) as u8) >= 0x80) by (bit_vector);
    assert((0xF0u8 | ((v >> 18) & 0x7) as u8) >= 0x80) by (bit_vector);
    assert((0x80u8 | (v & 0x3F) as u8) >= 0x80) by (bit_vector);
    assert((0x80u8 | ((v >> 6) & 0x3F) as u8) >= 0x80) by (bit_vector);
    assert((0x80u8 | ((v >> 12) & 0x3F) as u8) >= 0x80) by (bit_vector);
    if v < 0x80 {
        assert(encode_scalar(v) =~= seq![v as u8]);
    }
}

/// The encoding of two texts, one after the other, is the encoding of the
/// first and then that of the second.
pub proof fn lemma_encode_concat(a: Seq<char>, b: Seq<char>)
    ensures
        encode_utf8(a + b) == encode_utf8(a) + encode_utf8(b),
    decreases a.len(),
{
    if a.len() == 0 {
        assert(a + b =~= b);
        assert(encode_utf8(a) + encode_utf8(b) =~= encode_utf8(b));
    } else {
        lemma_encode_concat(a.drop_first(), b);
        assert((a + b).drop_first() =~= a.drop_first() + b);
        assert((a + b)[0] == a[0]);
        assert(encode_utf8(a + b) =~= encode_utf8(a) + encode_utf8(b));
    }
}

/// The encoding of a text of one character.
pub proof fn lemma_encode_one(c: char)
    ensures
        encode_utf8(seq![c]) == encode_scalar(c as u32),
{
    let one = seq![c];
    assert(one.len() == 1 && one[0] == c);
    assert(one.drop_first() =~= Seq::<char>::empty());
    assert(encode_utf8(one.drop_first()) =~= Seq::<u8>::empty());
    assert(encode_utf8(one) =~= encode_scalar(c as u32));
}

/// The encoding of a text, cut where its first `n` characters end.
pub proof fn lemma_encode_split(x: Seq<char>, n: int)
    requires
        0 <= n <= x.len(),
    ensures
        encode_utf8(x) == encode_utf8(x.take(n)) + encode_utf8(x.skip(n)),
{
    assert(x =~= x.take(n) + x.skip(n));
    lemma_encode_concat(x.take(n), x.skip(n));
}

/// Where the first `n` characters of a text end is a character boundary of
/// its encoding.
pub proof fn lemma_prefix_boundary(x: Seq<char>, n: int)
    requires
        0 <= n <= x.len(),
    ensures
        valid_utf8(encode_utf8(x)),
        is_char_boundary(encode_utf8(x), encode_utf8(x.take(n)).len() as int),
    decreases n,
{
    encode_utf8_valid_utf8(x);
    if n == 0 {
        assert(x.take(0) =~= Seq::empty());
    } else {
        let bytes = encode_utf8(x);
        let rest = x.drop_first();
        encode_utf8_first_scalar(x);
        assert(pop_first_scalar(bytes) =~= encode_utf8(rest));
        lemma_prefix_boundary(rest, n - 1);
        assert(x.take(n).drop_first() =~= rest.take(n - 1));
        assert(x.take(n)[0] == x[0]);
        vstd::utf8::char_is_scalar(x[0]);
        lemma_scalar_bytes(x[0] as u32);
        let index = encode_utf8(x.take(n)).len() as int;
        assert(index == length_of_first_scalar(bytes) + encode_utf8(rest.take(n - 1)).len());
        lemma_encode_split(x, n);
    }
}

/// If `i` is where the byte `c`, below `0x80`, first stands in the encoding
/// of a text, or the length of the encoding where it holds no such byte, then
/// `i` is where the characters before the first character `c` end.
pub proof fn lemma_first_ascii_byte(x: Seq<char>, c: char, i: int)
    requires
        (c as u32) < 0x80,
        0 <= i <= encode_utf8(x).len(),
        forall|j: int| 0 <= j < i ==> encode_utf8(x)[j] != c as u8,
        i < encode_utf8(x).len() ==> encode_utf8(x)[i] == c as u8,
    ensures
        position_of(x, c) <= x.len(),
        encode_utf8(x.take(position_of(x, c) as int)).len() == i,
        position_of(x, c) < x.len() <==> i < encode_utf8(x).len(),
    decreases x.len(),
{
    let k = position_of(x, c) as int;
    if x.len() == 0 {
        assert(x.take(k) =~= Seq::empty());
    } else {
        let ch = x[0];
        let rest = x.drop_first();
        let enc = encode_scalar(ch as u32);
        let bytes = encode_utf8(x);
        vstd::utf8::char_is_scalar(ch);
        lemma_scalar_bytes(ch as u32);
        assert(bytes == enc + encode_utf8(rest));
        if ch == c {
            assert(bytes[0] == c as u8);
            assert(x.take(0) =~= Seq::empty());
        } else {
            assert(ch as u32 != c as u32) by {
                if ch as u32 == c as u32 {
                    vstd::utf8::char_u32_cast(ch, ch as u32);
                    vstd::utf8::char_u32_cast(c, ch as u32);
                }
            }
            assert forall|j: int| 0 <= j < enc.len() implies enc[j] != c as u8 by {
                if (ch as u32) < 0x80 {
                    assert(enc[j] == (ch as u32) as u8);
                }
            }
            if i < enc.len() {
                assert(bytes[i] == enc[i]);
            }
            let tail = encode_utf8(rest);
            assert forall|j: int| 0 <= j < i - enc.len() implies tail[j] != c as u8 by {
                assert(tail[j] == bytes[j + enc.len()]);
            }
            if i < bytes.len() {
                assert(tail[i - enc.len()] == bytes[i]);
            }
            lemma_first_ascii_byte(rest, c, i - enc.len());
            let k1 = position_of(rest, c) as int;
            assert(x.take(k1 + 1).drop_first() =~= rest.take(k1));
            assert(x.take(k1 + 1)[0] == ch);
        }
    }
}

/// The last byte of the encoding of a text is the byte `c`, below `0x80`,
/// exactly when the last character of the text is `c`; and then the
/// characters before it end one byte before the end.
pub proof fn lemma_last_ascii_byte(x: Seq<char>, c: char)
    requires
        (c as u32) < 0x80,
        x.len() > 0,
    ensures
        encode_utf8(x).len() > 0,
        encode_utf8(x).last() == c as u8 <==> x.last() == c,
        x.last() == c ==> encode_utf8(x.drop_last()).len() == encode_utf8(x).len() - 1,
{
    let front = x.drop_last();
    let ch = x.last();
    let enc = encode_scalar(ch as u32);
    assert(x =~= front + seq![ch]);
    lemma_encode_concat(front, seq![ch]);
    lemma_encode_one(ch);
    vstd::utf8::char_is_scalar(ch);
    lemma_scalar_bytes(ch as u32);
    assert(encode_utf8(x).last() == enc.last());
    if (ch as u32) < 0x80 {
        assert(enc.last() == (ch as u32) as u8);
        if ch as u32 == c as u32 {
            vstd::utf8::char_u32_cast(ch, ch as u32);
            vstd::utf8::char_u32_cast(c, ch as u32);
        }
    } else {
        assert(enc[enc.len() - 1] >= 0x80);
    }
}

/// Cuts `s` at the byte offset `mid`, where its first `n` characters end.
fn cut<'a>(s: &'a str, mid: usize, Ghost(n): Ghost<int>) -> (r: (&'a str, &'a str))
    requires
        0 <= n <= s@.len(),
        mid == encode_utf8(s@.take(n)).len(),
    ensures
        r.0@ == s@.take(n),
        r.1@ == s@.skip(n),
{
    proof {
        lemma_prefix_boundary(s@, n);
        lemma_encode_split(s@, n);
    }
    let r = s.split_at(mid);
    proof {
        let bytes = encode_utf8(s@);
        assert(bytes.subrange(0, mid as int) =~= encode_utf8(s@.take(n)));
        assert(bytes.subrange(mid as int, bytes.len() as int) =~= encode_utf8(s@.skip(n)));
        encode_utf8_decode_utf8(r.0@);
        encode_utf8_decode_utf8(r.1@);
        encode_utf8_decode_utf8(s@.take(n));
        encode_utf8_decode_utf8(s@.skip(n));
    }
    r
}

/// Cuts `s` at its first character `c`, a character below `0x80`: what is
/// before it, and what is after it. `None` where `s` holds no `c`.
pub fn split_once_at<'a>(s: &'a str, c: char) -> (r: Option<(&'a str, &'a str)>)
    requires
        (c as u32) < 0x80,
    ensures
        r is Some <==> position_of(s@, c) < s@.len(),
        r matches Some(parts) ==> parts.0@ == s@.take(position_of(s@, c) as int) && parts.1@
            == s@.skip(position_of(s@, c) as int + 1),
{
    let bytes = s.as_bytes();
    let byte = c as u8;
    let mut i: usize = 0;
    while i < bytes.len() && bytes[i] != byte
        invariant
            i <= bytes@.len(),
            bytes@ == encode_utf8(s@),
            byte == c as u8,
            forall|j: int| 0 <= j < i ==> bytes@[j] != byte,
        decreases bytes@.len() - i,
    {
        i = i + 1;
    }
    let ghost k = position_of(s@, c) as int;
    proof {
        lemma_first_ascii_byte(s@, c, i as int);
    }
    if i < bytes.len() {
        let (before, from) = cut(s, i, Ghost(k));
        proof {
            crate::text::lemma_position_of(s@, c);
            assert(from@[0] == c);
            assert(from@.take(1) =~= seq![c]);
            vstd::utf8::char_is_scalar(c);
            lemma_scalar_bytes(c as u32);
            lemma_encode_one(c);
            assert(from@.skip(1) =~= s@.skip(k + 1));
        }
        let (_, after) = cut(from, 1, Ghost(1));
        Some((before, after))
    } else {
        None
    }
}

/// `s` without the character `c`, a character below `0x80`, at its end, if
/// it ends with one.
pub fn strip_last<'a>(s: &'a str, c: char) -> (r: &'a str)
    requires
        (c as u32) < 0x80,
    ensures
        r@ == if s@.len() > 0 && s@.last() == c {
            s@.drop_last()
        } else {
            s@
        },
{
    let bytes = s.as_bytes();
    let len = bytes.len();
    let byte = c as u8;
    proof {
        crate::text::lemma_chars_le_bytes(s@);
        if s@.len() > 0 {
            lemma_last_ascii_byte(s@, c);
        }
    }
    if len > 0 && bytes[len - 1] == byte {
        assert(s@.len() > 0) by {
            if s@.len() == 0 {
                assert(encode_utf8(s@).len() == 0);
            }
        }
        proof {
            lemma_last_ascii_byte(s@, c);
            assert(s@.take(s@.len() - 1) =~= s@.drop_last());
        }
        let (front, _) = cut(s, len - 1, Ghost(s@.len() - 1));
        front
    } else {
        s
    }
}

} // verus!
