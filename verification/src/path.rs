//! Paths as text. A path is a string whose segments are divided by `/`;
//! two paths name the same place when their segments agree.

use crate::text::{
    chars_of, joined, lemma_pieces_hold_no_separator, lemma_pieces_joined, lemma_pieces_nonempty,
    lemma_pieces_of_two, lemma_pieces_of_unbroken, pieces,
};
use vstd::prelude::*;

verus! {

/// The character that divides the segments of a path.
pub open spec fn separator() -> char {
    '/'
}

/// A piece that counts as a segment wherever it stands: it is neither
/// empty nor the single dot that stands for "this directory".
pub open spec fn is_named(piece: Seq<char>) -> bool {
    piece.len() > 0 && piece != seq!['.']
}

/// `is_named` as a predicate for filtering.
pub open spec fn named() -> spec_fn(Seq<char>) -> bool {
    |piece: Seq<char>| is_named(piece)
}

/// The segments of a path.
///
/// The path is cut at every separator. Of the pieces after the first, the
/// empty ones (from a doubled or a trailing separator) and the single dots
/// are dropped. The first piece stays if it is not empty, a leading dot
/// included; a path that begins with the separator has the root, written
/// `/`, as its first segment. The empty path has no segments.
pub open spec fn segments(path: Seq<char>) -> Seq<Seq<char>> {
    let cut = pieces(path, separator());
    let rest = cut.skip(1).filter(named());
    if cut[0].len() > 0 {
        seq![cut[0]] + rest
    } else if cut.len() > 1 {
        seq![seq![separator()]] + rest
    } else {
        rest
    }
}

/// `rel` placed under `base`.
///
/// A `rel` that begins with the separator stands for itself, and so does
/// any `rel` under the empty base. Otherwise `rel` follows `base`, with one
/// separator between them unless `base` already ends in one.
pub open spec fn join(base: Seq<char>, rel: Seq<char>) -> Seq<char> {
    if (rel.len() > 0 && rel[0] == separator()) || base.len() == 0 {
        rel
    } else if base.last() == separator() {
        base + rel
    } else {
        base + seq![separator()] + rel
    }
}

/// Whether two paths name the same place.
pub open spec fn same_place(a: Seq<char>, b: Seq<char>) -> bool {
    segments(a) == segments(b)
}

/// Whether a path is relative: it does not begin with the separator.
pub open spec fn is_relative(path: Seq<char>) -> bool {
    path.len() == 0 || path[0] != separator()
}

/// The pieces of a path that are neither empty nor a single dot, in order:
/// what the path adds to a base that it is placed under.
pub open spec fn named_pieces(path: Seq<char>) -> Seq<Seq<char>> {
    pieces(path, separator()).filter(named())
}

/// A path that is not empty and whose first piece is empty begins with the
/// separator, so it has a second piece.
proof fn lemma_rooted_has_two_pieces(path: Seq<char>)
    requires
        path.len() > 0,
        pieces(path, separator())[0].len() == 0,
    ensures
        pieces(path, separator()).len() > 1,
{
    lemma_pieces_nonempty(path, separator());
    lemma_pieces_joined(path, separator());
    if pieces(path, separator()).len() == 1 {
        assert(joined(pieces(path, separator()), separator()) == pieces(path, separator())[0]);
    }
}

/// A name that holds no separator, and is neither empty nor a single dot,
/// is its own single segment.
pub proof fn lemma_segments_of_name(name: Seq<char>)
    requires
        is_named(name),
        forall|i: int| 0 <= i < name.len() ==> name[i] != separator(),
    ensures
        segments(name) == seq![name],
        named_pieces(name) == seq![name],
{
    reveal(Seq::filter);
    lemma_pieces_of_unbroken(name, separator());
    let cut = pieces(name, separator());
    assert(cut.skip(1) =~= Seq::<Seq<char>>::empty());
    assert(seq![name].drop_last() =~= Seq::<Seq<char>>::empty());
    assert(cut.filter(named()) =~= seq![name]);
    assert(segments(name) =~= seq![name]);
}

/// Placing keeps the hierarchy: the segments of a relative path placed
/// under a base are the segments of the base, then the named pieces of the
/// path.
pub proof fn lemma_segments_of_join(base: Seq<char>, rel: Seq<char>)
    requires
        base.len() > 0,
        is_relative(rel),
    ensures
        segments(join(base, rel)) == segments(base) + named_pieces(rel),
{
    let sep = separator();
    let added = pieces(rel, sep);
    lemma_pieces_nonempty(rel, sep);
    lemma_pieces_nonempty(base, sep);
    if base.last() == sep {
        let stem = base.drop_last();
        let first = pieces(stem, sep);
        lemma_pieces_nonempty(stem, sep);
        assert(base + rel =~= stem + seq![sep] + rel);
        lemma_pieces_of_two(stem, rel, sep);
        let cut_base = pieces(base, sep);
        let cut_all = pieces(join(base, rel), sep);
        assert(cut_base == first.push(Seq::<char>::empty()));
        assert(cut_all == first + added);
        assert(cut_base.skip(1) =~= first.skip(1).push(Seq::<char>::empty()));
        assert(cut_all.skip(1) =~= first.skip(1) + added);
        first.skip(1).lemma_filter_push(Seq::<char>::empty(), named());
        Seq::filter_distributes_over_add(first.skip(1), added, named());
        assert(segments(join(base, rel)) =~= segments(base) + named_pieces(rel));
    } else {
        let first = pieces(base, sep);
        lemma_pieces_of_two(base, rel, sep);
        let cut_all = pieces(join(base, rel), sep);
        assert(cut_all == first + added);
        assert(cut_all.skip(1) =~= first.skip(1) + added);
        Seq::filter_distributes_over_add(first.skip(1), added, named());
        if first[0].len() == 0 {
            lemma_rooted_has_two_pieces(base);
        }
        assert(segments(join(base, rel)) =~= segments(base) + named_pieces(rel));
    }
}

/// A relative path placed under a base comes out at the base itself if and
/// only if it has no named piece.
pub proof fn lemma_join_stays_at_base(base: Seq<char>, rel: Seq<char>)
    requires
        base.len() > 0,
        is_relative(rel),
    ensures
        same_place(join(base, rel), base) <==> named_pieces(rel).len() == 0,
{
    lemma_segments_of_join(base, rel);
    if named_pieces(rel).len() == 0 {
        assert(segments(base) + named_pieces(rel) =~= segments(base));
    } else {
        assert((segments(base) + named_pieces(rel)).len() > segments(base).len());
    }
}

/// A plain name: neither empty nor a single dot, and without a separator.
pub open spec fn is_plain(piece: Seq<char>) -> bool {
    is_named(piece) && forall|j: int| 0 <= j < piece.len() ==> piece[j] != separator()
}

/// Whether every one of the names is plain.
pub open spec fn all_plain(names: Seq<Seq<char>>) -> bool {
    forall|i: int| 0 <= i < names.len() ==> is_plain(#[trigger] names[i])
}

/// A path relative to a root: what follows the segments of the root among
/// the segments of the path, written with one separator between
/// neighbours. There is none unless the root has a segment and the
/// segments of the root begin those of the path.
pub open spec fn relative(root: Seq<char>, path: Seq<char>) -> Option<Seq<char>> {
    let base = segments(root);
    if base.len() > 0 && base.is_prefix_of(segments(path)) {
        Some(joined(segments(path).skip(base.len() as int), separator()))
    } else {
        None
    }
}

/// What is left of pieces without a separator, once the empty ones and the
/// single dots are gone, are plain names.
proof fn lemma_named_among_pieces_are_plain(cut: Seq<Seq<char>>)
    requires
        forall|i: int, j: int| 0 <= i < cut.len() && 0 <= j < cut[i].len() ==> cut[i][j] != separator(),
    ensures
        all_plain(cut.filter(named())),
    decreases cut.len(),
{
    reveal(Seq::filter);
    if cut.len() > 0 {
        lemma_named_among_pieces_are_plain(cut.drop_last());
    }
}

/// The named pieces of a path are plain names.
pub proof fn lemma_named_pieces_are_plain(path: Seq<char>)
    ensures
        all_plain(named_pieces(path)),
{
    lemma_pieces_hold_no_separator(path, separator());
    lemma_named_among_pieces_are_plain(pieces(path, separator()));
}

/// Every segment of a path but the first is a plain name.
pub proof fn lemma_later_segments_are_plain(path: Seq<char>)
    ensures
        forall|i: int| 1 <= i < segments(path).len() ==> is_plain(#[trigger] segments(path)[i]),
{
    let cut = pieces(path, separator());
    lemma_pieces_nonempty(path, separator());
    lemma_pieces_hold_no_separator(path, separator());
    let later = cut.skip(1);
    assert forall|i: int, j: int| 0 <= i < later.len() && 0 <= j < later[i].len() implies later[i][j]
        != separator() by {
        assert(later[i] == cut[i + 1]);
    }
    lemma_named_among_pieces_are_plain(later);
    let rest = later.filter(named());
    assert forall|i: int| 1 <= i < segments(path).len() implies is_plain(
        #[trigger] segments(path)[i],
    ) by {
        if cut[0].len() > 0 || cut.len() > 1 {
            assert(segments(path)[i] == rest[i - 1]);
        } else {
            assert(segments(path)[i] == rest[i]);
        }
    }
}

/// Plain names stay when the empty pieces and the single dots are dropped.
proof fn lemma_plain_names_stay(names: Seq<Seq<char>>)
    requires
        all_plain(names),
    ensures
        names.filter(named()) == names,
    decreases names.len(),
{
    reveal(Seq::filter);
    if names.len() > 0 {
        assert(is_plain(names[names.len() - 1]));
        assert forall|i: int| 0 <= i < names.drop_last().len() implies is_plain(
            #[trigger] names.drop_last()[i],
        ) by {
            assert(names.drop_last()[i] == names[i]);
        }
        lemma_plain_names_stay(names.drop_last());
        assert(names.drop_last().push(names.last()) =~= names);
    }
}

/// Plain names joined by the separator come apart into the same names, and
/// what they are joined to does not begin with the separator.
pub proof fn lemma_joined_names(names: Seq<Seq<char>>)
    requires
        all_plain(names),
    ensures
        named_pieces(joined(names, separator())) == names,
        is_relative(joined(names, separator())),
        names.len() > 0 ==> pieces(joined(names, separator()), separator()) == names,
    decreases names.len(),
{
    let sep = separator();
    reveal(Seq::filter);
    if names.len() == 0 {
        let nothing = seq![Seq::<char>::empty()];
        assert(joined(names, sep) =~= Seq::<char>::empty());
        assert(pieces(joined(names, sep), sep) =~~= nothing);
        assert(nothing.drop_last() =~= Seq::<Seq<char>>::empty());
        assert(!is_named(nothing.last()));
        assert(nothing.filter(named()) =~= nothing.drop_last().filter(named()));
        assert(named_pieces(joined(names, sep)) =~= names);
    } else {
        let last = names.last();
        let front = names.drop_last();
        assert(is_plain(last));
        assert forall|i: int| 0 <= i < front.len() implies is_plain(#[trigger] front[i]) by {
            assert(front[i] == names[i]);
        }
        lemma_pieces_of_unbroken(last, sep);
        if names.len() == 1 {
            assert(pieces(joined(names, sep), sep) =~~= names);
        } else {
            lemma_joined_names(front);
            lemma_pieces_of_two(joined(front, sep), last, sep);
            assert(pieces(joined(names, sep), sep) =~~= names);
            assert(joined(front, sep).len() > 0) by {
                lemma_pieces_joined(joined(front, sep), sep);
                assert(is_plain(front[0]));
                if joined(front, sep).len() == 0 {
                    assert(pieces(joined(front, sep), sep) =~~= seq![Seq::<char>::empty()]);
                }
            }
            assert(joined(names, sep)[0] == joined(front, sep)[0]);
        }
        lemma_plain_names_stay(names);
    }
}

/// A path relative to a root is a relative path, and it gives the path
/// back: the segments of the path are those of the root, then the named
/// pieces of the relative path.
pub proof fn lemma_relative_gives_the_path(root: Seq<char>, path: Seq<char>)
    requires
        relative(root, path) is Some,
    ensures
        is_relative(relative(root, path)->0),
        segments(path) == segments(root) + named_pieces(relative(root, path)->0),
        all_plain(named_pieces(relative(root, path)->0)),
{
    let base = segments(root);
    let whole = segments(path);
    let rest = whole.skip(base.len() as int);
    lemma_later_segments_are_plain(path);
    assert forall|i: int| 0 <= i < rest.len() implies is_plain(#[trigger] rest[i]) by {
        assert(rest[i] == whole[i + base.len()]);
    }
    lemma_joined_names(rest);
    assert(whole =~= base + rest);
}

/// Taking a path relative to a root undoes placing it under the root, up
/// to the pieces that do not count: what comes back are the named pieces of
/// what was placed, joined by the separator.
pub proof fn lemma_relative_of_join(root: Seq<char>, rel: Seq<char>)
    requires
        root.len() > 0,
        is_relative(rel),
    ensures
        relative(root, join(root, rel)) == Some(joined(named_pieces(rel), separator())),
{
    lemma_segments_of_join(root, rel);
    lemma_pieces_nonempty(root, separator());
    if pieces(root, separator())[0].len() == 0 {
        lemma_rooted_has_two_pieces(root);
    }
    let base = segments(root);
    let whole = segments(join(root, rel));
    assert(base.len() > 0);
    assert(whole.subrange(0, base.len() as int) =~= base);
    assert(whole.skip(base.len() as int) =~= named_pieces(rel));
}

/// Cuts a path at every separator.
pub fn split_path(path: &str) -> (out: Vec<String>)
    ensures
        out.deep_view() == pieces(path@, separator()),
        out.len() >= 1,
{
    let chars = chars_of(path);
    let n: usize = chars.len();
    let mut out: Vec<String> = Vec::new();
    let mut start: usize = 0;
    let mut i: usize = 0;
    assert(path@.take(0) =~= Seq::<char>::empty());
    assert(out.deep_view().push(path@.subrange(0, 0)) =~~= seq![Seq::<char>::empty()]);
    while i < n
        invariant
            chars@ == path@,
            n == chars.len(),
            start <= i <= n,
            pieces(path@.take(i as int), separator()) == out.deep_view().push(
                path@.subrange(start as int, i as int),
            ),
        decreases n - i,
    {
        let ghost before = pieces(path@.take(i as int), separator());
        let ghost done = out.deep_view();
        let ghost from = start as int;
        assert(path@.take(i + 1).drop_last() =~= path@.take(i as int));
        assert(path@.take(i + 1).last() == path@[i as int]);
        if chars[i] == '/' {
            let piece = path.substring_char(start, i);
            out.push(String::from_str(piece));
            start = i + 1;
            assert(out.deep_view() =~~= done.push(path@.subrange(from, i as int)));
            assert(path@.subrange(start as int, i + 1) =~= Seq::<char>::empty());
            assert(pieces(path@.take(i + 1), separator()) == before.push(Seq::<char>::empty()));
        } else {
            assert(before.drop_last() =~~= done);
            assert(before.last() == path@.subrange(start as int, i as int));
            assert(path@.subrange(start as int, i as int).push(path@[i as int])
                =~= path@.subrange(start as int, i + 1));
        }
        i += 1;
    }
    let ghost done = out.deep_view();
    let piece = path.substring_char(start, n);
    out.push(String::from_str(piece));
    assert(path@.take(n as int) =~= path@);
    assert(out.deep_view() =~~= done.push(path@.subrange(start as int, n as int)));
    out
}

/// Tests whether a piece is neither empty nor a single dot.
fn piece_is_named(piece: &str) -> (r: bool)
    ensures
        r == is_named(piece@),
{
    let n: usize = piece.unicode_len();
    if n == 0 {
        false
    } else if n == 1 {
        let c = piece.get_char(0);
        assert(piece@ =~= seq![c]);
        c != '.'
    } else {
        true
    }
}

/// The segments of a path, in order.
pub fn path_segments(path: &str) -> (out: Vec<String>)
    ensures
        out.deep_view() == segments(path@),
{
    let cut = split_path(path);
    let ghost all = cut.deep_view();
    let mut out: Vec<String> = Vec::new();
    if cut[0].as_str().unicode_len() > 0 {
        out.push(cut[0].clone());
    } else if cut.len() > 1 {
        proof {
            reveal_strlit("/");
        }
        out.push(String::from_str("/"));
        assert("/"@ =~= seq![separator()]);
    }
    let ghost head = out.deep_view();
    assert(head =~~= if all[0].len() > 0 {
        seq![all[0]]
    } else if all.len() > 1 {
        seq![seq![separator()]]
    } else {
        Seq::<Seq<char>>::empty()
    });
    let mut i: usize = 1;
    proof {
        reveal(Seq::filter);
        assert(all.skip(1).take(0) =~= Seq::<Seq<char>>::empty());
        assert(head + all.skip(1).take(0).filter(named()) =~= head);
    }
    while i < cut.len()
        invariant
            1 <= i <= cut.len(),
            all == cut.deep_view(),
            out.deep_view() == head + all.skip(1).take(i - 1).filter(named()),
        decreases cut.len() - i,
    {
        let ghost done = out.deep_view();
        let ghost seen = all.skip(1).take(i - 1);
        let ghost next = all.skip(1).take(i as int);
        proof {
            reveal(Seq::filter);
            assert(next.drop_last() =~= seen);
            assert(next.last() == all[i as int]);
        }
        assert(all[i as int] == cut[i as int]@);
        if piece_is_named(cut[i].as_str()) {
            out.push(cut[i].clone());
            assert(out.deep_view() =~~= done.push(all[i as int]));
            assert(next.filter(named()) == seen.filter(named()).push(all[i as int]));
            assert(head + seen.filter(named()).push(all[i as int]) =~= (head + seen.filter(
                named(),
            )).push(all[i as int]));
        } else {
            assert(next.filter(named()) == seen.filter(named()));
        }
        i += 1;
    }
    assert(all.skip(1).take(cut.len() - 1) =~= all.skip(1));
    out
}

/// Places `rel` under `base`.
pub fn join_paths(base: &str, rel: &str) -> (out: String)
    ensures
        out@ == join(base@, rel@),
{
    let base_len: usize = base.unicode_len();
    let rel_len: usize = rel.unicode_len();
    if base_len == 0 || (rel_len > 0 && rel.get_char(0) == '/') {
        return String::from_str(rel);
    }
    let mut out = String::from_str(base);
    if base.get_char(base_len - 1) != '/' {
        proof {
            reveal_strlit("/");
        }
        out.append("/");
        assert("/"@ =~= seq![separator()]);
    }
    out.append(rel);
    out
}

/// Tests whether two paths name the same place.
pub fn is_same_place(a: &str, b: &str) -> (r: bool)
    ensures
        r == same_place(a@, b@),
{
    let left = path_segments(a);
    let right = path_segments(b);
    assert(left.deep_view().len() == left.len() && right.deep_view().len() == right.len());
    if left.len() != right.len() {
        return false;
    }
    let mut i: usize = 0;
    while i < left.len()
        invariant
            i <= left.len(),
            left.len() == right.len(),
            left.deep_view() == segments(a@),
            right.deep_view() == segments(b@),
            forall|k: int| 0 <= k < i ==> segments(a@)[k] == segments(b@)[k],
        decreases left.len() - i,
    {
        assert(left.deep_view()[i as int] == left[i as int]@);
        assert(right.deep_view()[i as int] == right[i as int]@);
        if left[i] != right[i] {
            return false;
        }
        i += 1;
    }
    assert(segments(a@) =~= segments(b@));
    true
}

/// The path relative to a root, if the path lies at or below the root.
pub fn relative_to(root: &str, path: &str) -> (r: Option<String>)
    ensures
        r is Some <==> relative(root@, path@) is Some,
        r is Some ==> r->0@ == relative(root@, path@)->0,
        r is Some <==> segments(root@).len() > 0 && segments(root@).is_prefix_of(segments(path@)),
        r is Some ==> is_relative(r->0@) && segments(path@) == segments(root@) + named_pieces(
            r->0@,
        ),
{
    let base = path_segments(root);
    let whole = path_segments(path);
    assert(base.deep_view().len() == base.len() && whole.deep_view().len() == whole.len());
    if base.len() == 0 || base.len() > whole.len() {
        return None;
    }
    let mut i: usize = 0;
    while i < base.len()
        invariant
            i <= base.len() <= whole.len(),
            base.deep_view() == segments(root@),
            whole.deep_view() == segments(path@),
            forall|k: int| 0 <= k < i ==> segments(root@)[k] == segments(path@)[k],
        decreases base.len() - i,
    {
        assert(base.deep_view()[i as int] == base[i as int]@);
        assert(whole.deep_view()[i as int] == whole[i as int]@);
        if base[i] != whole[i] {
            assert(segments(path@).subrange(0, base.len() as int)[i as int] != segments(
                root@,
            )[i as int]);
            return None;
        }
        i += 1;
    }
    assert(segments(root@) =~= segments(path@).subrange(0, base.len() as int));
    let ghost rest = segments(path@).skip(base.len() as int);
    let mut out = String::new();
    let mut j: usize = base.len();
    assert(rest.take(0) =~= Seq::<Seq<char>>::empty());
    while j < whole.len()
        invariant
            base.len() <= j <= whole.len(),
            whole.deep_view() == segments(path@),
            rest == segments(path@).skip(base.len() as int),
            out@ == joined(rest.take(j - base.len()), separator()),
        decreases whole.len() - j,
    {
        let ghost before = rest.take(j - base.len());
        let ghost after = rest.take(j - base.len() + 1);
        assert(whole.deep_view()[j as int] == whole[j as int]@);
        assert(after.drop_last() =~= before);
        assert(after.last() == whole[j as int]@);
        if j > base.len() {
            proof {
                reveal_strlit("/");
            }
            out.append("/");
            assert("/"@ =~= seq![separator()]);
        }
        out.append(whole[j].as_str());
        j += 1;
    }
    assert(rest.take(whole.len() - base.len()) =~= rest);
    proof {
        lemma_relative_gives_the_path(root@, path@);
    }
    Some(out)
}

} // verus!
