use asp_spectra::path::{is_same_place, join_paths, path_segments, split_path};
use asp_spectra::text::{chars_of, has_suffix};
use std::path::Path;

fn std_segments(path: &str) -> Vec<String> {
    Path::new(path).iter().map(|part| part.to_string_lossy().into_owned()).collect()
}

fn std_join(base: &str, rel: &str) -> String {
    Path::new(base).join(rel).to_string_lossy().into_owned()
}

#[test]
fn chars_of_a_string() {
    assert_eq!(chars_of("a/b"), vec!['a', '/', 'b']);
    assert_eq!(chars_of(""), Vec::<char>::new());
    assert_eq!(chars_of("\u{e9}x"), vec!['\u{e9}', 'x']);
}

#[test]
fn suffix_is_tested_letter_for_letter() {
    assert!(has_suffix("x.asp", ".asp"));
    assert!(has_suffix(".asp", ".asp"));
    assert!(has_suffix("anything", ""));
    assert!(!has_suffix("asp", ".asp"));
    assert!(!has_suffix("x.ASP", ".asp"));
    assert!(!has_suffix("x.asp ", ".asp"));
    assert!(!has_suffix("", ".asp"));
}

#[test]
fn a_path_is_cut_at_every_separator() {
    assert_eq!(split_path(""), vec![""]);
    assert_eq!(split_path("a"), vec!["a"]);
    assert_eq!(split_path("a/b"), vec!["a", "b"]);
    assert_eq!(split_path("/a"), vec!["", "a"]);
    assert_eq!(split_path("a/"), vec!["a", ""]);
    assert_eq!(split_path("a//b"), vec!["a", "", "b"]);
    assert_eq!(split_path("/"), vec!["", ""]);
    assert_eq!(split_path("./a/x.asp"), vec![".", "a", "x.asp"]);
}

#[test]
fn segments_of_plain_paths() {
    assert_eq!(path_segments("a/b/c"), vec!["a", "b", "c"]);
    assert_eq!(path_segments("exportados"), vec!["exportados"]);
    assert_eq!(path_segments("root/a/x.asp"), vec!["root", "a", "x.asp"]);
    assert_eq!(path_segments(""), Vec::<String>::new());
}

#[test]
fn segments_drop_doubled_and_trailing_separators() {
    assert_eq!(path_segments("a//b"), vec!["a", "b"]);
    assert_eq!(path_segments("a/b/"), vec!["a", "b"]);
    assert_eq!(path_segments("a/b///"), vec!["a", "b"]);
}

#[test]
fn segments_keep_a_leading_dot_only() {
    assert_eq!(path_segments("."), vec!["."]);
    assert_eq!(path_segments("./a"), vec![".", "a"]);
    assert_eq!(path_segments("a/./b"), vec!["a", "b"]);
    assert_eq!(path_segments("a/b/."), vec!["a", "b"]);
    assert_eq!(path_segments("././a"), vec![".", "a"]);
    assert_eq!(path_segments("a/.."), vec!["a", ".."]);
    assert_eq!(path_segments("a/.b"), vec!["a", ".b"]);
}

#[test]
fn segments_of_rooted_paths_begin_with_the_root() {
    assert_eq!(path_segments("/"), vec!["/"]);
    assert_eq!(path_segments("/a"), vec!["/", "a"]);
    assert_eq!(path_segments("//a/"), vec!["/", "a"]);
    assert_eq!(path_segments("/./a"), vec!["/", "a"]);
}

#[test]
fn segments_agree_with_the_standard_library() {
    let paths = [
        "", ".", "..", "/", "//", "a", "a/", "/a", "./a", "a/.", "a/./b", "a//b", "a/b/c/",
        "./.", "./..", "../a", "/.", "/..", "/./a/./b/.", "exportados", "./exportados",
        "exportados/./exportados", "a/.hidden", ".hidden", "...", "a/.../b", "./a/x.asp",
        "caf\u{e9}/na\u{ef}ve", " / ",
    ];
    for path in paths {
        assert_eq!(path_segments(path), std_segments(path), "{:?}", path);
    }
}

#[test]
fn join_places_a_path_under_a_base() {
    assert_eq!(join_paths("exportados", "a"), "exportados/a");
    assert_eq!(join_paths("exportados", "./a/b"), "exportados/./a/b");
    assert_eq!(join_paths("exportados/", "a"), "exportados/a");
    assert_eq!(join_paths("exportados", ""), "exportados/");
    assert_eq!(join_paths("", "a"), "a");
    assert_eq!(join_paths("exportados", "/abs/a"), "/abs/a");
    assert_eq!(join_paths("/", "a"), "/a");
}

#[test]
fn join_agrees_with_the_standard_library() {
    let parts = ["", ".", "a", "a/", "/a", "./a", "a/b", "/", "exportados", "x.csv", "a//"];
    for base in parts {
        for rel in parts {
            assert_eq!(join_paths(base, rel), std_join(base, rel), "{:?} {:?}", base, rel);
        }
    }
}

#[test]
fn same_place_goes_by_segments() {
    assert!(is_same_place("exportados/.", "exportados"));
    assert!(is_same_place("exportados/", "exportados"));
    assert!(is_same_place("a//b", "a/b"));
    assert!(is_same_place("", ""));
    assert!(!is_same_place("./exportados", "exportados"));
    assert!(!is_same_place("exportados/a", "exportados"));
    assert!(!is_same_place("/a", "a"));
    assert!(!is_same_place("a", "A"));
}

#[test]
fn same_place_agrees_with_the_standard_library() {
    let paths = ["", ".", "a", "a/", "a/.", "./a", "/a", "a//b", "a/b", "a/./b", "b"];
    for left in paths {
        for right in paths {
            assert_eq!(
                is_same_place(left, right),
                Path::new(left) == Path::new(right),
                "{:?} {:?}",
                left,
                right
            );
        }
    }
}
