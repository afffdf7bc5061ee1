//! Splitting of sequences at a separator, and small helpers on strings.

use vstd::prelude::*;

verus! {

/// The pieces of `s` between occurrences of `sep`, in order. A sequence
/// with `n` separators has `n + 1` pieces; some of them may be empty.
pub open spec fn pieces<T>(s: Seq<T>, sep: T) -> Seq<Seq<T>>
    decreases s.len(),
{
    if s.len() == 0 {
        seq![Seq::<T>::empty()]
    } else {
        let before = pieces(s.drop_last(), sep);
        if s.last() == sep {
            before.push(Seq::<T>::empty())
        } else {
            before.drop_last().push(before.last().push(s.last()))
        }
    }
}

/// The pieces put together again, with `sep` between neighbours.
pub open spec fn joined<T>(parts: Seq<Seq<T>>, sep: T) -> Seq<T>
    decreases parts.len(),
{
    if parts.len() == 0 {
        Seq::<T>::empty()
    } else if parts.len() == 1 {
        parts[0]
    } else {
        joined(parts.drop_last(), sep) + seq![sep] + parts.last()
    }
}

/// There is always at least one piece.
pub proof fn lemma_pieces_nonempty<T>(s: Seq<T>, sep: T)
    ensures
        pieces(s, sep).len() >= 1,
    decreases s.len(),
{
    if s.len() > 0 {
        lemma_pieces_nonempty(s.drop_last(), sep);
    }
}

/// No piece holds the separator.
pub proof fn lemma_pieces_hold_no_separator<T>(s: Seq<T>, sep: T)
    ensures
        forall|i: int, j: int|
            0 <= i < pieces(s, sep).len() && 0 <= j < pieces(s, sep)[i].len()
                ==> pieces(s, sep)[i][j] != sep,
    decreases s.len(),
{
    if s.len() > 0 {
        lemma_pieces_nonempty(s.drop_last(), sep);
        lemma_pieces_hold_no_separator(s.drop_last(), sep);
    }
}

/// Splitting loses nothing: the pieces, joined by the separator, are the
/// sequence that was split.
pub proof fn lemma_pieces_joined<T>(s: Seq<T>, sep: T)
    ensures
        joined(pieces(s, sep), sep) == s,
    decreases s.len(),
{
    if s.len() > 0 {
        let rest = s.drop_last();
        let before = pieces(rest, sep);
        lemma_pieces_nonempty(rest, sep);
        lemma_pieces_joined(rest, sep);
        if s.last() == sep {
            let now = before.push(Seq::<T>::empty());
            assert(now.drop_last() == before);
        } else {
            let grown = before.last().push(s.last());
            let now = before.drop_last().push(grown);
            assert(now.drop_last() == before.drop_last());
            if before.len() > 1 {
                let front = joined(before.drop_last(), sep) + seq![sep];
                assert(front + grown == (front + before.last()).push(s.last()));
            }
        }
    }
}

/// A sequence without the separator is one piece.
pub proof fn lemma_pieces_of_unbroken<T>(s: Seq<T>, sep: T)
    requires
        forall|i: int| 0 <= i < s.len() ==> s[i] != sep,
    ensures
        pieces(s, sep) == seq![s],
    decreases s.len(),
{
    if s.len() == 0 {
        assert(pieces(s, sep) =~~= seq![s]);
    } else {
        lemma_pieces_of_unbroken(s.drop_last(), sep);
        assert(s.drop_last().push(s.last()) =~= s);
    }
}

/// The pieces of two sequences with one separator between them are the
/// pieces of the first, then the pieces of the second.
pub proof fn lemma_pieces_of_two<T>(a: Seq<T>, b: Seq<T>, sep: T)
    ensures
        pieces(a + seq![sep] + b, sep) == pieces(a, sep) + pieces(b, sep),
    decreases b.len(),
{
    let whole = a + seq![sep] + b;
    if b.len() == 0 {
        assert(whole.drop_last() =~= a);
    } else {
        let shorter = a + seq![sep] + b.drop_last();
        lemma_pieces_of_two(a, b.drop_last(), sep);
        lemma_pieces_nonempty(b.drop_last(), sep);
        assert(whole.drop_last() =~= shorter);
    }
}

/// Whether `s` ends in `suffix`.
pub open spec fn ends_with(s: Seq<char>, suffix: Seq<char>) -> bool {
    suffix.len() <= s.len() && s.skip(s.len() - suffix.len()) == suffix
}

/// The characters of a string slice, in order.
pub fn chars_of(s: &str) -> (out: Vec<char>)
    ensures
        out@ == s@,
{
    let mut out: Vec<char> = Vec::new();
    for c in it: s.chars()
        invariant
            it.seq() == s@,
            out@ == it.seq().take(it.index()),
    {
        out.push(c);
    }
    out
}

/// Tests whether `s` ends in `suffix`, character by character.
pub fn has_suffix(s: &str, suffix: &str) -> (r: bool)
    ensures
        r == ends_with(s@, suffix@),
{
    let text = chars_of(s);
    let tail = chars_of(suffix);
    if tail.len() > text.len() {
        return false;
    }
    let offset: usize = text.len() - tail.len();
    let mut i: usize = 0;
    while i < tail.len()
        invariant
            text@ == s@,
            tail@ == suffix@,
            offset + tail.len() == text.len(),
            i <= tail.len(),
            forall|k: int| 0 <= k < i ==> text@[offset + k] == tail@[k],
        decreases tail.len() - i,
    {
        if text[offset + i] != tail[i] {
            return false;
        }
        i += 1;
    }
    assert(s@.skip(s@.len() - suffix@.len()) =~= suffix@);
    true
}

} // verus!
