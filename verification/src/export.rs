//! Where the table of a spectrum goes, and what the table is called.

use crate::path::{
    is_named, is_relative, join, join_paths, lemma_joined_names, lemma_segments_of_join,
    lemma_segments_of_name,
    named, named_pieces, segments, separator,
};
use crate::text::{
    ends_with, has_suffix, joined, lemma_pieces_nonempty, lemma_pieces_of_two, pieces,
};
use vstd::prelude::*;

verus! {

/// The extension of a source file.
pub const SOURCE_EXTENSION: &'static str = ".asp";

/// The extension of a table.
pub const TABLE_EXTENSION: &'static str = ".csv";

/// The label of the first column of a table.
pub const WAVENUMBER_LABEL: &'static str = "wavenumber";

/// The label of the second column of a table.
pub const TRANSMITTANCE_LABEL: &'static str = "transmittance";

/// The extension of a source file, character by character.
pub open spec fn source_extension() -> Seq<char> {
    seq!['.', 'a', 's', 'p']
}

/// The extension of a table, character by character.
pub open spec fn table_extension() -> Seq<char> {
    seq!['.', 'c', 's', 'v']
}

/// Whether a name is that of a source file: it ends in the source
/// extension, letter for letter.
pub open spec fn is_source_name(name: Seq<char>) -> bool {
    ends_with(name, source_extension())
}

/// Whether a name has a table under an output root: it is the name of a
/// source file, and it is relative, so that what is placed under the root
/// stays under it.
pub open spec fn has_table(name: Seq<char>) -> bool {
    is_source_name(name) && is_relative(name)
}

/// The name of the table of a source file: the source extension gives way
/// to the table extension.
pub open spec fn table_name(source_name: Seq<char>) -> Seq<char>
    recommends
        is_source_name(source_name),
{
    source_name.take(source_name.len() - source_extension().len()) + table_extension()
}

/// The path of the table of a source file: its table name, placed under
/// the output root where the source file stands under the scan root.
pub open spec fn table_path(source_name: Seq<char>, output_root: Seq<char>) -> Seq<char>
    recommends
        is_source_name(source_name),
{
    join(output_root, table_name(source_name))
}

/// The table of a source file goes into the mirror of the directory that
/// the file stands in: its segments are those of the directory placed under
/// the output root, then the table name.
pub proof fn lemma_table_goes_into_the_mirror(
    directory: Seq<char>,
    stem: Seq<char>,
    output_root: Seq<char>,
)
    requires
        output_root.len() > 0,
        is_relative(directory),
        forall|i: int| 0 <= i < stem.len() ==> stem[i] != separator(),
    ensures
        is_source_name(join(directory, stem + source_extension())),
        segments(table_path(join(directory, stem + source_extension()), output_root))
            == segments(join(output_root, directory)).push(stem + table_extension()),
{
    let sep = separator();
    let source = join(directory, stem + source_extension());
    let table = stem + table_extension();
    assert(is_relative(stem + source_extension()));
    assert(is_relative(table));
    assert(source.skip(source.len() - source_extension().len()) =~= source_extension());
    assert(table_name(source) =~= join(directory, table));
    assert(is_relative(join(directory, table)));
    assert(is_named(table)) by {
        assert(table[table.len() - 1] == 'v');
    }
    lemma_segments_of_name(table);
    lemma_segments_of_join(output_root, join(directory, table));
    lemma_segments_of_join(output_root, directory);
    lemma_pieces_nonempty(directory, sep);
    if directory.len() == 0 {
        lemma_joined_names(Seq::<Seq<char>>::empty());
        assert(joined(Seq::<Seq<char>>::empty(), sep) =~= directory);
        assert(named_pieces(directory) + seq![table] =~= seq![table]);
    } else if directory.last() == sep {
        let shorter = directory.drop_last();
        assert(directory + table =~= shorter + seq![sep] + table);
        lemma_pieces_of_two(shorter, table, sep);
        assert(pieces(directory, sep) == pieces(shorter, sep).push(Seq::<char>::empty()));
        pieces(shorter, sep).lemma_filter_push(Seq::<char>::empty(), named());
        Seq::filter_distributes_over_add(pieces(shorter, sep), pieces(table, sep), named());
    } else {
        lemma_pieces_of_two(directory, table, sep);
        Seq::filter_distributes_over_add(pieces(directory, sep), pieces(table, sep), named());
    }
    assert(named_pieces(join(directory, table)) == named_pieces(directory) + seq![table]);
    assert(segments(output_root) + (named_pieces(directory) + seq![table]) =~= (segments(
        output_root,
    ) + named_pieces(directory)).push(table));
}

/// A table lies under its output root: the segments of its path are those
/// of the root, then the named pieces of the table name.
pub proof fn lemma_table_lies_under_the_root(source_name: Seq<char>, output_root: Seq<char>)
    requires
        has_table(source_name),
        output_root.len() > 0,
    ensures
        is_relative(table_name(source_name)),
        segments(table_path(source_name, output_root)) == segments(output_root) + named_pieces(
            table_name(source_name),
        ),
{
    let stem = source_name.take(source_name.len() - source_extension().len());
    assert(source_name.skip(source_name.len() - source_extension().len())[0] == '.');
    if stem.len() > 0 {
        assert(table_name(source_name)[0] == source_name[0]);
    } else {
        assert(table_name(source_name)[0] == '.');
    }
    lemma_segments_of_join(output_root, table_name(source_name));
}

/// Tests whether a file name ends in the source extension.
pub fn extension_is_asp(filename: &str) -> (r: bool)
    ensures
        r == is_source_name(filename@),
{
    proof {
        reveal_strlit(".asp");
        assert(".asp"@ =~= source_extension());
    }
    has_suffix(filename, SOURCE_EXTENSION)
}

/// Computes the path of the table of a source file, if the name is a
/// relative name of a source file.
pub fn table_path_of(source_name: &str, output_root: &str) -> (r: Option<String>)
    ensures
        has_table(source_name@) ==> r is Some && r->0@ == table_path(source_name@, output_root@),
        !has_table(source_name@) ==> r is None,
        r is Some && output_root@.len() > 0 ==> segments(r->0@) == segments(output_root@)
            + named_pieces(table_name(source_name@)),
{
    if !extension_is_asp(source_name) {
        return None;
    }
    let n: usize = source_name.unicode_len();
    if source_name.get_char(0) == '/' {
        return None;
    }
    proof {
        if output_root@.len() > 0 {
            lemma_table_lies_under_the_root(source_name@, output_root@);
        }
    }
    let stem = source_name.substring_char(0, n - 4);
    let mut name = String::from_str(stem);
    proof {
        reveal_strlit(".csv");
        assert(".csv"@ =~= table_extension());
    }
    name.append(TABLE_EXTENSION);
    assert(name@ =~= table_name(source_name@));
    Some(join_paths(output_root, name.as_str()))
}

} // verus!
