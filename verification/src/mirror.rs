//! The directories to create under the output root so that it mirrors the
//! scanned tree.

use crate::path::{
    is_relative, is_same_place, join, join_paths, lemma_join_stays_at_base,
    lemma_relative_gives_the_path, lemma_segments_of_join, named_pieces, relative, same_place,
    segments,
};
use vstd::prelude::*;

verus! {

/// Placing a directory under one output root, as a function for mapping.
pub open spec fn under(output_root: Seq<char>) -> spec_fn(Seq<char>) -> Seq<char> {
    |directory: Seq<char>| join(output_root, directory)
}

/// Whether a directory gets a target under an output root: it is relative,
/// so that it stays under the root, and it does not come out as the root
/// itself.
pub open spec fn gets_target(directory: Seq<char>, output_root: Seq<char>) -> bool {
    is_relative(directory) && !same_place(join(output_root, directory), output_root)
}

/// `gets_target` for one output root, as a predicate for filtering.
pub open spec fn with_target(output_root: Seq<char>) -> spec_fn(Seq<char>) -> bool {
    |directory: Seq<char>| gets_target(directory, output_root)
}

/// The directories to create: each directory that gets a target, placed
/// under the output root, in the order in which the directories come.
pub open spec fn mirror_targets(directories: Seq<Seq<char>>, output_root: Seq<char>) -> Seq<
    Seq<char>,
> {
    directories.filter(with_target(output_root)).map_values(under(output_root))
}

/// Under an output root that is not empty, a relative directory is left
/// out of the targets exactly when it has no named piece: when it is the
/// root of the scan, written as the empty path or as a dot.
pub proof fn lemma_mirror_leaves_out_the_nameless(directory: Seq<char>, output_root: Seq<char>)
    requires
        output_root.len() > 0,
        is_relative(directory),
    ensures
        mirror_targets(seq![directory], output_root) == if named_pieces(directory).len() == 0 {
            Seq::<Seq<char>>::empty()
        } else {
            seq![join(output_root, directory)]
        },
{
    reveal(Seq::filter);
    lemma_join_stays_at_base(output_root, directory);
    let one = seq![directory];
    assert(one.drop_last() =~= Seq::<Seq<char>>::empty());
    assert(one.drop_last().filter(with_target(output_root)) =~= Seq::<Seq<char>>::empty());
    if named_pieces(directory).len() == 0 {
        assert(one.filter(with_target(output_root)) =~= Seq::<Seq<char>>::empty());
        assert(mirror_targets(one, output_root) =~= Seq::<Seq<char>>::empty());
    } else {
        assert(one.filter(with_target(output_root)) =~= one);
        assert(mirror_targets(one, output_root) =~= seq![join(output_root, directory)]);
    }
}

/// A target lies under its output root, where the directory lies under
/// the root of the scan: its segments are those of the output root, then
/// what the segments of the directory add to those of the scan root.
pub proof fn lemma_target_mirrors_the_directory(
    path: Seq<char>,
    source_root: Seq<char>,
    output_root: Seq<char>,
)
    requires
        output_root.len() > 0,
        relative(source_root, path) is Some,
    ensures
        segments(join(output_root, relative(source_root, path)->0)) == segments(output_root)
            + segments(path).skip(segments(source_root).len() as int),
        gets_target(relative(source_root, path)->0, output_root) <==> segments(path) != segments(
            source_root,
        ),
{
    let name = relative(source_root, path)->0;
    lemma_relative_gives_the_path(source_root, path);
    lemma_segments_of_join(output_root, name);
    lemma_join_stays_at_base(output_root, name);
    assert(segments(path).skip(segments(source_root).len() as int) =~= named_pieces(name));
    if named_pieces(name).len() == 0 {
        assert(segments(source_root) + named_pieces(name) =~= segments(source_root));
    }
}

/// Computes the directories to create under the output root.
pub fn handle_folders(paths: &Vec<String>, output_root: &str) -> (targets: Vec<String>)
    ensures
        targets.deep_view() == mirror_targets(paths.deep_view(), output_root@),
        forall|i: int|
            0 <= i < targets.len() ==> !same_place(#[trigger] targets[i]@, output_root@),
        output_root@.len() > 0 ==> forall|i: int|
            0 <= i < targets.len() ==> segments(output_root@).is_prefix_of(
                segments(#[trigger] targets[i]@),
            ),
{
    let ghost scanned = paths.deep_view();
    let mut targets: Vec<String> = Vec::new();
    let mut i: usize = 0;
    proof {
        reveal(Seq::filter);
        assert(scanned.take(0) =~= Seq::<Seq<char>>::empty());
        assert(mirror_targets(scanned.take(0), output_root@) =~= Seq::<Seq<char>>::empty());
    }
    while i < paths.len()
        invariant
            i <= paths.len(),
            scanned == paths.deep_view(),
            targets.deep_view() == mirror_targets(scanned.take(i as int), output_root@),
            forall|k: int|
                0 <= k < targets.len() ==> !same_place(#[trigger] targets[k]@, output_root@),
            output_root@.len() > 0 ==> forall|k: int|
                0 <= k < targets.len() ==> segments(output_root@).is_prefix_of(
                    segments(#[trigger] targets[k]@),
                ),
        decreases paths.len() - i,
    {
        let ghost done = targets.deep_view();
        let ghost seen = scanned.take(i as int);
        let ghost here = scanned[i as int];
        proof {
            assert(here == paths[i as int]@);
            assert(scanned.take(i + 1) =~= seen.push(here));
            seen.lemma_filter_push(here, with_target(output_root@));
        }
        let relative = paths[i].as_str().unicode_len() == 0 || paths[i].as_str().get_char(0)
            != '/';
        if relative {
            let target = join_paths(output_root, paths[i].as_str());
            if !is_same_place(target.as_str(), output_root) {
                proof {
                    if output_root@.len() > 0 {
                        lemma_segments_of_join(output_root@, here);
                        assert((segments(output_root@) + named_pieces(here)).subrange(
                            0,
                            segments(output_root@).len() as int,
                        ) =~= segments(output_root@));
                    }
                    assert(seen.filter(with_target(output_root@)).push(here).map_values(
                        under(output_root@),
                    ) =~= seen.filter(with_target(output_root@)).map_values(
                        under(output_root@),
                    ).push(target@));
                }
                targets.push(target);
                assert(targets.deep_view() =~~= done.push(join(output_root@, here)));
            }
        }
        i += 1;
    }
    assert(scanned.take(paths.len() as int) =~= scanned);
    targets
}

} // verus!
