//! The partition of a directory walk into files and directories, and the
//! guard that keeps the output folder out of the directories to mirror.

use crate::path::{
    is_named, is_relative, join, lemma_segments_of_join, lemma_segments_of_name, path_segments,
    segments, separator,
};
use split_iter::Splittable;
use vstd::prelude::*;

verus! {

/// One entry of a directory walk: where it is, and whether it is a
/// directory.
#[derive(Debug)]
pub struct DirectoryEntry {
    pub path: String,
    pub is_dir: bool,
}

/// What a scan hands on: the files and the directories of the walk, each
/// in the order of the walk.
#[derive(Debug)]
pub struct ScanResult {
    pub files: Vec<String>,
    pub directories: Vec<String>,
}

/// The entries that are directories.
pub open spec fn is_directory() -> spec_fn(DirectoryEntry) -> bool {
    |entry: DirectoryEntry| entry.is_dir
}

/// The entries that are not directories.
pub open spec fn is_file() -> spec_fn(DirectoryEntry) -> bool {
    |entry: DirectoryEntry| !entry.is_dir
}

/// The paths of the entries, in order.
pub open spec fn paths_of(entries: Seq<DirectoryEntry>) -> Seq<Seq<char>> {
    entries.map_values(|entry: DirectoryEntry| entry.path@)
}

/// Whether a directory stays in the scan result: at least one of its
/// segments is not the reserved name.
pub open spec fn keeps(path: Seq<char>, reserved: Seq<char>) -> bool {
    exists|i: int| 0 <= i < segments(path).len() && #[trigger] segments(path)[i] != reserved
}

/// `keeps` for one reserved name, as a predicate for filtering.
pub open spec fn kept(reserved: Seq<char>) -> spec_fn(Seq<char>) -> bool {
    |path: Seq<char>| keeps(path, reserved)
}

/// A folder nested in folders of its own name, `depth` levels down.
pub open spec fn nested(name: Seq<char>, depth: nat) -> Seq<char>
    decreases depth,
{
    if depth == 0 {
        name
    } else {
        join(nested(name, (depth - 1) as nat), name)
    }
}

/// A folder of the reserved name is dropped, and so is one nested in
/// folders of that name at any depth: such a path has no other segment.
pub proof fn lemma_reserved_folder_is_dropped(reserved: Seq<char>, depth: nat)
    requires
        is_named(reserved),
        forall|i: int| 0 <= i < reserved.len() ==> reserved[i] != separator(),
    ensures
        nested(reserved, depth).len() > 0,
        segments(nested(reserved, depth)).len() == depth + 1,
        forall|i: int| 0 <= i <= depth ==> segments(nested(reserved, depth))[i] == reserved,
        !keeps(nested(reserved, depth), reserved),
    decreases depth,
{
    lemma_segments_of_name(reserved);
    if depth > 0 {
        let outer = nested(reserved, (depth - 1) as nat);
        lemma_reserved_folder_is_dropped(reserved, (depth - 1) as nat);
        lemma_segments_of_join(outer, reserved);
    }
}

/// The guard goes by names only: whatever is placed under a directory that
/// is kept is kept too, a folder of the reserved name included.
pub proof fn lemma_kept_below_kept(base: Seq<char>, rel: Seq<char>, reserved: Seq<char>)
    requires
        base.len() > 0,
        is_relative(rel),
        keeps(base, reserved),
    ensures
        keeps(join(base, rel), reserved),
{
    lemma_segments_of_join(base, rel);
    let i = choose|i: int| 0 <= i < segments(base).len() && segments(base)[i] != reserved;
    assert(segments(join(base, rel))[i] == segments(base)[i]);
}

/// Calls `split` of split_iter on the entries, with the directory flag as
/// the predicate, and collects both sides. By the crate's source the left
/// side yields the entries for which the predicate is false, the right
/// side those for which it is true, each side in the order of the input.
#[verifier::external_body]
fn split_by_kind(entries: Vec<DirectoryEntry>) -> (sides: (
    Vec<DirectoryEntry>,
    Vec<DirectoryEntry>,
))
    ensures
        sides.0@ == entries@.filter(is_file()),
        sides.1@ == entries@.filter(is_directory()),
{
    let (files, directories) = entries.into_iter().split(|entry| entry.is_dir);
    (files.collect(), directories.collect())
}

/// Tests whether a directory stays in the scan result.
pub fn keeps_directory(path: &str, reserved: &str) -> (r: bool)
    ensures
        r == keeps(path@, reserved@),
{
    let parts = path_segments(path);
    let name = String::from_str(reserved);
    assert(parts.deep_view().len() == parts.len());
    let mut i: usize = 0;
    while i < parts.len()
        invariant
            i <= parts.len(),
            parts.deep_view() == segments(path@),
            name@ == reserved@,
            forall|k: int| 0 <= k < i ==> segments(path@)[k] == reserved@,
        decreases parts.len() - i,
    {
        assert(parts.deep_view()[i as int] == parts[i as int]@);
        if parts[i] != name {
            return true;
        }
        i += 1;
    }
    false
}

/// Partitions the entries of a walk into files and directories, and drops
/// the directories whose every segment is the reserved name.
pub fn partition_entries(entries: Vec<DirectoryEntry>, reserved: &str) -> (r: ScanResult)
    ensures
        r.files.deep_view() == paths_of(entries@.filter(is_file())),
        r.directories.deep_view() == paths_of(entries@.filter(is_directory())).filter(
            kept(reserved@),
        ),
{
    let (file_entries, dir_entries) = split_by_kind(entries);
    let mut files: Vec<String> = Vec::new();
    let mut i: usize = 0;
    while i < file_entries.len()
        invariant
            i <= file_entries.len(),
            files.deep_view() == paths_of(file_entries@.take(i as int)),
        decreases file_entries.len() - i,
    {
        let ghost done = files.deep_view();
        files.push(file_entries[i].path.clone());
        assert(files.deep_view() =~~= done.push(file_entries@[i as int].path@));
        assert(paths_of(file_entries@.take(i + 1)) =~~= paths_of(
            file_entries@.take(i as int),
        ).push(file_entries@[i as int].path@));
        i += 1;
    }
    assert(file_entries@.take(file_entries.len() as int) =~= file_entries@);
    let mut directories: Vec<String> = Vec::new();
    let mut j: usize = 0;
    proof {
        reveal(Seq::filter);
        assert(paths_of(dir_entries@.take(0)) =~~= Seq::<Seq<char>>::empty());
    }
    while j < dir_entries.len()
        invariant
            j <= dir_entries.len(),
            directories.deep_view() == paths_of(dir_entries@.take(j as int)).filter(
                kept(reserved@),
            ),
        decreases dir_entries.len() - j,
    {
        let ghost done = directories.deep_view();
        let ghost seen = paths_of(dir_entries@.take(j as int));
        let ghost here = dir_entries@[j as int].path@;
        proof {
            assert(paths_of(dir_entries@.take(j + 1)) =~~= seen.push(here));
            seen.lemma_filter_push(here, kept(reserved@));
        }
        if keeps_directory(dir_entries[j].path.as_str(), reserved) {
            directories.push(dir_entries[j].path.clone());
            assert(directories.deep_view() =~~= done.push(here));
        }
        j += 1;
    }
    assert(dir_entries@.take(dir_entries.len() as int) =~= dir_entries@);
    ScanResult { files, directories }
}

} // verus!
