//! The lines of a text.

use crate::encoding::{split_once_at, strip_last};
use crate::text::position_of;
use vstd::prelude::*;

verus! {

/// `line` without the carriage return at its end, if it has one.
pub open spec fn without_carriage_return(line: Seq<char>) -> Seq<char> {
    if line.len() > 0 && line.last() == '\r' {
        line.drop_last()
    } else {
        line
    }
}

/// The lines of `text`. A line ends with a line feed, or with a carriage
/// return and a line feed; neither belongs to the line. What follows the last
/// line feed is a line too, unless it is empty.
pub open spec fn lines_of(text: Seq<char>) -> Seq<Seq<char>>
    decreases text.len(),
{
    if text.len() == 0 {
        Seq::empty()
    } else {
        let end = position_of(text, '\n') as int;
        if end < text.len() {
            seq![without_carriage_return(text.take(end))] + lines_of(text.skip(end + 1))
        } else {
            seq![text]
        }
    }
}

/// The lines of `text`, in order.
pub fn split_lines<'a>(text: &'a str) -> (r: Vec<&'a str>)
    ensures
        r@.len() == lines_of(text@).len(),
        forall|i: int| 0 <= i < r@.len() ==> r@[i]@ == lines_of(text@)[i],
{
    let ghost all = lines_of(text@);
    let mut out: Vec<&'a str> = Vec::new();
    let mut rest = text;
    loop
        invariant
            all == lines_of(text@),
            out@.len() <= all.len(),
            forall|i: int| 0 <= i < out@.len() ==> out@[i]@ == all[i],
            lines_of(rest@) == all.skip(out@.len() as int),
        decreases rest@.len(),
    {
        match split_once_at(rest, '\n') {
            Some((line, after)) => {
                let line = strip_last(line, '\r');
                proof {
                    assert(lines_of(rest@)[0] == line@);
                    assert(lines_of(rest@).drop_first() =~= lines_of(after@));
                    assert(all.skip(out@.len() as int).drop_first() =~= all.skip(
                        out@.len() as int + 1,
                    ));
                    assert(all[out@.len() as int] == all.skip(out@.len() as int)[0]);
                }
                out.push(line);
                rest = after;
            },
            None => {
                if !rest.is_empty() {
                    proof {
                        assert(lines_of(rest@) =~= seq![rest@]);
                        assert(all.skip(out@.len() as int).len() == 1);
                        assert(all[out@.len() as int] == all.skip(out@.len() as int)[0]);
                    }
                    out.push(rest);
                }
                return out;
            },
        }
    }
}

} // verus!
