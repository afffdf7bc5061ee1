//! The lines of a source file.

use crate::text::pieces;
use vstd::prelude::*;
use vstd::slice::{slice_subrange, slice_to_vec};

verus! {

/// The byte that ends a line.
pub open spec fn line_feed() -> u8 {
    10
}

/// The byte that may stand before the line feed and then belongs to the
/// line ending.
pub open spec fn carriage_return() -> u8 {
    13
}

/// A line that was ended by a line feed, without the carriage return that
/// stood before the line feed, if one did.
pub open spec fn without_return(line: Seq<u8>) -> Seq<u8> {
    if line.len() > 0 && line.last() == carriage_return() {
        line.drop_last()
    } else {
        line
    }
}

/// `without_return` as a function for mapping.
pub open spec fn ended() -> spec_fn(Seq<u8>) -> Seq<u8> {
    |line: Seq<u8>| without_return(line)
}

/// The lines of a text.
///
/// A line ends at a line feed, or at a carriage return directly followed
/// by a line feed; neither belongs to the line. The last line needs no
/// ending: it is there if anything follows the last line feed, and then it
/// is taken as it stands. The empty text has no lines.
pub open spec fn lines_of(text: Seq<u8>) -> Seq<Seq<u8>> {
    let cut = pieces(text, line_feed());
    let complete = cut.drop_last().map_values(ended());
    if cut.last().len() > 0 {
        complete.push(cut.last())
    } else {
        complete
    }
}

/// Splits a text into its lines.
pub fn split_lines(text: &[u8]) -> (lines: Vec<Vec<u8>>)
    ensures
        lines.deep_view() == lines_of(text@),
{
    let n: usize = text.len();
    let mut lines: Vec<Vec<u8>> = Vec::new();
    let mut start: usize = 0;
    let mut i: usize = 0;
    while i < n
        invariant
            n == text@.len(),
            start <= i <= n,
            pieces(text@.take(i as int), line_feed()).len() >= 1,
            pieces(text@.take(i as int), line_feed()).last() == text@.subrange(
                start as int,
                i as int,
            ),
            lines.deep_view() == pieces(text@.take(i as int), line_feed()).drop_last().map_values(
                ended(),
            ),
        decreases n - i,
    {
        let ghost before = pieces(text@.take(i as int), line_feed());
        let ghost done = lines.deep_view();
        assert(text@.take(i + 1).drop_last() =~= text@.take(i as int));
        if text[i] == 10 {
            let end: usize = if i > start && text[i - 1] == 13 {
                i - 1
            } else {
                i
            };
            let line = slice_to_vec(slice_subrange(text, start, end));
            lines.push(line);
            start = i + 1;
            assert(lines.deep_view() =~~= done.push(without_return(before.last())));
        }
        i += 1;
    }
    assert(text@.take(n as int) =~= text@);
    if start < n {
        let ghost done = lines.deep_view();
        let line = slice_to_vec(slice_subrange(text, start, n));
        lines.push(line);
        assert(lines.deep_view() =~~= done.push(text@.subrange(start as int, n as int)));
    }
    lines
}

} // verus!
