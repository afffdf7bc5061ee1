//! What a run does with the entries of a walk, before any file is read:
//! which directories it creates and which files it converts.

use crate::export::{extension_is_asp, is_source_name};
use crate::mirror::{gets_target, handle_folders, mirror_targets, under, with_target};
use crate::path::{
    is_relative, join, lemma_join_stays_at_base, lemma_joined_names, lemma_named_pieces_are_plain,
    lemma_relative_of_join, named_pieces, relative, relative_to, segments, separator,
};
use crate::text::joined;
use crate::scanner::keeps;
use crate::scanner::{is_directory, is_file, kept, partition_entries, paths_of, DirectoryEntry};
use vstd::prelude::*;

verus! {

/// The name of the folder that holds the output.
pub const OUTPUT_FOLDER: &'static str = "exportados";

/// A source file to convert: the path at which the walk found it, and its
/// name, which is that path relative to the root of the scan.
#[derive(Debug)]
pub struct Source {
    pub path: String,
    pub name: String,
}

/// What there is to do: the directories to create, and the source files
/// to convert, each in the order of the walk.
#[derive(Debug)]
pub struct ConversionPlan {
    pub directories: Vec<String>,
    pub sources: Vec<Source>,
}

/// The names of source files, as a predicate for filtering.
pub open spec fn source_names() -> spec_fn(Seq<char>) -> bool {
    |name: Seq<char>| is_source_name(name)
}

/// A path relative to one root, as a function for picking the paths that
/// lie at or below the root.
pub open spec fn below(root: Seq<char>) -> spec_fn(Seq<char>) -> Option<Seq<char>> {
    |path: Seq<char>| relative(root, path)
}

/// The paths that lie at or below a root, each relative to the root, in
/// order.
pub open spec fn relative_names(paths: Seq<Seq<char>>, root: Seq<char>) -> Seq<Seq<char>> {
    paths.filter_map(below(root))
}

/// A path with its name relative to one root, as a function for picking
/// the paths that lie at or below the root.
pub open spec fn named_below(root: Seq<char>) -> spec_fn(Seq<char>) -> Option<
    (Seq<char>, Seq<char>),
> {
    |path: Seq<char>|
        match relative(root, path) {
            Some(name) => Some((path, name)),
            None => None,
        }
}

/// The sources among the files of a scan: the source files that lie below
/// the root, each with its name relative to the root, in order.
pub open spec fn sources_among(files: Seq<Seq<char>>, root: Seq<char>) -> Seq<
    (Seq<char>, Seq<char>),
> {
    files.filter(source_names()).filter_map(named_below(root))
}

/// Path and name of each source, in order.
pub open spec fn source_views(sources: Seq<Source>) -> Seq<(Seq<char>, Seq<char>)> {
    sources.map_values(|source: Source| (source.path@, source.name@))
}

/// The directories to create for the directories of a walk: those that the
/// guard keeps, each relative to the source root, placed under the output
/// root.
pub open spec fn planned_directories(
    directories: Seq<Seq<char>>,
    source_root: Seq<char>,
    output_root: Seq<char>,
    reserved: Seq<char>,
) -> Seq<Seq<char>> {
    mirror_targets(relative_names(directories.filter(kept(reserved)), source_root), output_root)
}

/// Picking from two runs of items picks from the first run, then from the
/// second.
proof fn lemma_picked_of_two<A, B>(first: Seq<A>, second: Seq<A>, pick: spec_fn(A) -> Option<B>)
    ensures
        (first + second).filter_map(pick) == first.filter_map(pick) + second.filter_map(pick),
    decreases second.len(),
{
    if second.len() == 0 {
        assert(first + second =~= first);
        assert(first.filter_map(pick) + second.filter_map(pick) =~= first.filter_map(pick));
    } else {
        lemma_picked_of_two(first, second.drop_last(), pick);
        assert((first + second).drop_last() =~= first + second.drop_last());
        assert((first + second).last() == second.last());
        assert((first + second).filter_map(pick) =~= first.filter_map(pick) + second.filter_map(
            pick,
        ));
    }
}

/// The plan for two runs of directories is the plan for the first run,
/// then the plan for the second: each directory is planned by itself.
pub proof fn lemma_planned_of_two(
    first: Seq<Seq<char>>,
    second: Seq<Seq<char>>,
    source_root: Seq<char>,
    output_root: Seq<char>,
    reserved: Seq<char>,
)
    ensures
        planned_directories(first + second, source_root, output_root, reserved)
            == planned_directories(first, source_root, output_root, reserved)
            + planned_directories(second, source_root, output_root, reserved),
{
    let kept_first = first.filter(kept(reserved));
    let kept_second = second.filter(kept(reserved));
    Seq::filter_distributes_over_add(first, second, kept(reserved));
    lemma_picked_of_two(kept_first, kept_second, below(source_root));
    let names_first = relative_names(kept_first, source_root);
    let names_second = relative_names(kept_second, source_root);
    Seq::filter_distributes_over_add(names_first, names_second, with_target(output_root));
    assert((names_first.filter(with_target(output_root)) + names_second.filter(
        with_target(output_root),
    )).map_values(under(output_root)) =~= names_first.filter(
        with_target(output_root),
    ).map_values(under(output_root)) + names_second.filter(with_target(output_root)).map_values(
        under(output_root),
    ));
}

/// The plan for one directory: a directory that the guard keeps and that
/// lies below the source root, but is not the source root itself, is
/// created once, at its relative path under the output root; any other
/// directory is not created.
pub proof fn lemma_planned_of_one(
    path: Seq<char>,
    source_root: Seq<char>,
    output_root: Seq<char>,
    reserved: Seq<char>,
)
    ensures
        planned_directories(seq![path], source_root, output_root, reserved) == if keeps(
            path,
            reserved,
        ) && relative(source_root, path) is Some && gets_target(
            relative(source_root, path)->0,
            output_root,
        ) {
            seq![join(output_root, relative(source_root, path)->0)]
        } else {
            Seq::<Seq<char>>::empty()
        },
{
    reveal(Seq::filter);
    let one = seq![path];
    let nothing = Seq::<Seq<char>>::empty();
    assert(one.drop_last() =~= nothing);
    assert(nothing.filter(kept(reserved)) =~= nothing);
    assert(nothing.filter(with_target(output_root)) =~= nothing);
    assert(relative_names(nothing, source_root) =~= nothing);
    assert(mirror_targets(nothing, output_root) =~= nothing);
    if keeps(path, reserved) {
        assert(one.filter(kept(reserved)) =~= one);
        Seq::lemma_filter_map_singleton(path, below(source_root));
        if relative(source_root, path) is Some {
            let name = relative(source_root, path)->0;
            let named = seq![name];
            assert(relative_names(one, source_root) =~= named);
            assert(named.drop_last() =~= nothing);
            if gets_target(name, output_root) {
                assert(named.filter(with_target(output_root)) =~= named);
                assert(mirror_targets(named, output_root) =~= seq![join(output_root, name)]);
            } else {
                assert(named.filter(with_target(output_root)) =~= nothing);
            }
        } else {
            assert(relative_names(one, source_root) =~= nothing);
        }
    } else {
        assert(one.filter(kept(reserved)) =~= nothing);
    }
}

/// A directory below the source root is mirrored: if the guard keeps it,
/// it is created once, at its relative path under the output root, written
/// with its named pieces.
pub proof fn lemma_directory_below_the_root_is_mirrored(
    source_root: Seq<char>,
    rel: Seq<char>,
    output_root: Seq<char>,
    reserved: Seq<char>,
)
    requires
        source_root.len() > 0,
        output_root.len() > 0,
        is_relative(rel),
        named_pieces(rel).len() > 0,
        keeps(join(source_root, rel), reserved),
    ensures
        planned_directories(seq![join(source_root, rel)], source_root, output_root, reserved)
            == seq![join(output_root, joined(named_pieces(rel), separator()))],
{
    let name = joined(named_pieces(rel), separator());
    lemma_relative_of_join(source_root, rel);
    lemma_named_pieces_are_plain(rel);
    lemma_joined_names(named_pieces(rel));
    lemma_join_stays_at_base(output_root, name);
    lemma_planned_of_one(join(source_root, rel), source_root, output_root, reserved);
}

/// The source root itself is not mirrored: the output root stands for it.
pub proof fn lemma_the_root_is_not_mirrored(
    source_root: Seq<char>,
    output_root: Seq<char>,
    reserved: Seq<char>,
)
    requires
        output_root.len() > 0,
    ensures
        planned_directories(seq![source_root], source_root, output_root, reserved) == Seq::<
            Seq<char>,
        >::empty(),
{
    lemma_planned_of_one(source_root, source_root, output_root, reserved);
    if relative(source_root, source_root) is Some {
        let nothing = Seq::<Seq<char>>::empty();
        assert(segments(source_root).skip(segments(source_root).len() as int) =~= nothing);
        lemma_joined_names(nothing);
        lemma_join_stays_at_base(output_root, joined(nothing, separator()));
    }
}

/// Picks the source files among the files of a scan, in order.
pub fn select_sources(files: &Vec<String>) -> (sources: Vec<String>)
    ensures
        sources.deep_view() == files.deep_view().filter(source_names()),
{
    let ghost all = files.deep_view();
    let mut sources: Vec<String> = Vec::new();
    let mut i: usize = 0;
    proof {
        reveal(Seq::filter);
        assert(all.take(0) =~= Seq::<Seq<char>>::empty());
    }
    while i < files.len()
        invariant
            i <= files.len(),
            all == files.deep_view(),
            sources.deep_view() == all.take(i as int).filter(source_names()),
        decreases files.len() - i,
    {
        let ghost done = sources.deep_view();
        proof {
            assert(all[i as int] == files[i as int]@);
            assert(all.take(i + 1) =~= all.take(i as int).push(all[i as int]));
            all.take(i as int).lemma_filter_push(all[i as int], source_names());
        }
        if extension_is_asp(files[i].as_str()) {
            sources.push(files[i].clone());
            assert(sources.deep_view() =~~= done.push(all[i as int]));
        }
        i += 1;
    }
    assert(all.take(files.len() as int) =~= all);
    sources
}

/// Takes each path relative to the root; a path that does not lie at or
/// below the root is left out.
pub fn relative_paths(paths: &Vec<String>, root: &str) -> (names: Vec<String>)
    ensures
        names.deep_view() == relative_names(paths.deep_view(), root@),
{
    let ghost all = paths.deep_view();
    let mut names: Vec<String> = Vec::new();
    let mut i: usize = 0;
    assert(all.take(0) =~= Seq::<Seq<char>>::empty());
    assert(names.deep_view() =~= relative_names(all.take(0), root@));
    while i < paths.len()
        invariant
            i <= paths.len(),
            all == paths.deep_view(),
            names.deep_view() == relative_names(all.take(i as int), root@),
        decreases paths.len() - i,
    {
        let ghost done = names.deep_view();
        proof {
            assert(all[i as int] == paths[i as int]@);
            all.lemma_filter_map_take_succ(below(root@), i as int);
        }
        match relative_to(root, paths[i].as_str()) {
            Some(name) => {
                names.push(name);
                assert(names.deep_view() =~~= done + seq![relative(root@, all[i as int])->0]);
            },
            None => {},
        }
        i += 1;
    }
    assert(all.take(paths.len() as int) =~= all);
    names
}

/// Gives each source file its name relative to the root; a file that does
/// not lie below the root is left out.
pub fn name_sources(files: &Vec<String>, root: &str) -> (sources: Vec<Source>)
    ensures
        source_views(sources@) == files.deep_view().filter_map(named_below(root@)),
{
    let ghost all = files.deep_view();
    let mut sources: Vec<Source> = Vec::new();
    let mut i: usize = 0;
    assert(all.take(0) =~= Seq::<Seq<char>>::empty());
    assert(source_views(sources@) =~= all.take(0).filter_map(named_below(root@)));
    while i < files.len()
        invariant
            i <= files.len(),
            all == files.deep_view(),
            source_views(sources@) == all.take(i as int).filter_map(named_below(root@)),
        decreases files.len() - i,
    {
        let ghost done = source_views(sources@);
        proof {
            assert(all[i as int] == files[i as int]@);
            all.lemma_filter_map_take_succ(named_below(root@), i as int);
        }
        match relative_to(root, files[i].as_str()) {
            Some(name) => {
                sources.push(Source { path: files[i].clone(), name });
                assert(source_views(sources@) =~= done + seq![
                    (all[i as int], relative(root@, all[i as int])->0),
                ]);
            },
            None => {},
        }
        i += 1;
    }
    assert(all.take(files.len() as int) =~= all);
    sources
}

/// Plans a run from the entries of a walk below the source root.
///
/// The directories of the walk, but for those whose every segment is the
/// reserved name, are taken relative to the source root and placed under
/// the output root; the source root itself gets no target. The files of
/// the walk that are source files are to be converted, whatever became of
/// their directories, each under its name relative to the source root.
pub fn plan_conversion(
    entries: Vec<DirectoryEntry>,
    source_root: &str,
    output_root: &str,
    reserved: &str,
) -> (plan: ConversionPlan)
    ensures
        plan.directories.deep_view() == planned_directories(
            paths_of(entries@.filter(is_directory())),
            source_root@,
            output_root@,
            reserved@,
        ),
        source_views(plan.sources@) == sources_among(
            paths_of(entries@.filter(is_file())),
            source_root@,
        ),
{
    let scan = partition_entries(entries, reserved);
    let names = relative_paths(&scan.directories, source_root);
    let directories = handle_folders(&names, output_root);
    let files = select_sources(&scan.files);
    let sources = name_sources(&files, source_root);
    ConversionPlan { directories, sources }
}

} // verus!
