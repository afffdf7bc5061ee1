use asp_spectra::export::extension_is_asp;
use asp_spectra::mirror::handle_folders;
use asp_spectra::path::relative_to;
use asp_spectra::pipeline::{
    name_sources, plan_conversion, relative_paths, select_sources, ConversionPlan, OUTPUT_FOLDER,
};
use asp_spectra::scanner::{keeps_directory, partition_entries, DirectoryEntry};

fn dir(path: &str) -> DirectoryEntry {
    DirectoryEntry { path: path.to_string(), is_dir: true }
}

fn file(path: &str) -> DirectoryEntry {
    DirectoryEntry { path: path.to_string(), is_dir: false }
}

fn strings(paths: &[&str]) -> Vec<String> {
    paths.iter().map(|path| path.to_string()).collect()
}

fn sources_of(plan: &ConversionPlan) -> Vec<(String, String)> {
    plan.sources.iter().map(|source| (source.path.clone(), source.name.clone())).collect()
}

fn pair(path: &str, name: &str) -> (String, String) {
    (path.to_string(), name.to_string())
}

fn walk_of_two_folders() -> Vec<DirectoryEntry> {
    vec![dir("root"), dir("root/a"), file("root/a/x.asp"), dir("root/b"), file("root/b/y.txt")]
}

#[test]
fn output_folder_has_its_name() {
    assert_eq!(OUTPUT_FOLDER, "exportados");
}

#[test]
fn partition_keeps_the_order_of_the_walk() {
    let entries = vec![
        file("z.asp"),
        dir("b"),
        file("b/k.asp"),
        dir("a"),
        file("a/y.txt"),
        file("a/x.asp"),
    ];
    let scan = partition_entries(entries, "exportados");
    assert_eq!(scan.files, strings(&["z.asp", "b/k.asp", "a/y.txt", "a/x.asp"]));
    assert_eq!(scan.directories, strings(&["b", "a"]));
}

#[test]
fn partition_of_nothing_is_empty() {
    let scan = partition_entries(Vec::new(), "exportados");
    assert!(scan.files.is_empty());
    assert!(scan.directories.is_empty());
}

#[test]
fn partition_does_not_filter_files() {
    let entries = vec![file("exportados"), file("exportados/x.csv"), file("notes")];
    let scan = partition_entries(entries, "exportados");
    assert_eq!(scan.files, strings(&["exportados", "exportados/x.csv", "notes"]));
    assert!(scan.directories.is_empty());
}

#[test]
fn scan_of_two_folders() {
    let scan = partition_entries(walk_of_two_folders(), "exportados");
    assert_eq!(scan.files, strings(&["root/a/x.asp", "root/b/y.txt"]));
    assert_eq!(scan.directories, strings(&["root", "root/a", "root/b"]));
    assert_eq!(select_sources(&scan.files), strings(&["root/a/x.asp"]));
    let names = relative_paths(&scan.directories, "root");
    assert_eq!(names, strings(&["", "a", "b"]));
    assert_eq!(handle_folders(&names, "out"), strings(&["out/a", "out/b"]));
}

#[test]
fn plan_of_two_folders() {
    let plan = plan_conversion(walk_of_two_folders(), "root", "out", "exportados");
    assert_eq!(plan.directories, strings(&["out/a", "out/b"]));
    assert_eq!(sources_of(&plan), vec![pair("root/a/x.asp", "a/x.asp")]);
}

#[test]
fn plan_of_two_folders_in_another_order() {
    let entries = vec![
        file("root/b/y.txt"),
        dir("root/b"),
        file("root/a/x.asp"),
        dir("root/a"),
        dir("root"),
    ];
    let plan = plan_conversion(entries, "root", "out", "exportados");
    assert_eq!(plan.directories, strings(&["out/b", "out/a"]));
    assert_eq!(sources_of(&plan), vec![pair("root/a/x.asp", "a/x.asp")]);
}

#[test]
fn plan_leaves_out_what_is_not_below_the_root() {
    let entries = vec![dir("root"), dir("root/a"), dir("other/b"), file("other/x.asp"), file("root/y.asp")];
    let plan = plan_conversion(entries, "root", "out", "exportados");
    assert_eq!(plan.directories, strings(&["out/a"]));
    assert_eq!(sources_of(&plan), vec![pair("root/y.asp", "y.asp")]);
}

#[test]
fn relative_path_is_what_follows_the_root() {
    assert_eq!(relative_to("root", "root/a/x.asp"), Some("a/x.asp".to_string()));
    assert_eq!(relative_to("root", "root"), Some("".to_string()));
    assert_eq!(relative_to("root/", "root//a/./b/"), Some("a/b".to_string()));
    assert_eq!(relative_to(".", "./a"), Some("a".to_string()));
    assert_eq!(relative_to(".", "."), Some("".to_string()));
    assert_eq!(relative_to("/", "/a/b"), Some("a/b".to_string()));
    assert_eq!(relative_to("/data/in", "/data/in/s/x.asp"), Some("s/x.asp".to_string()));
    assert_eq!(relative_to("a/b", "a/b/c/d"), Some("c/d".to_string()));
}

#[test]
fn relative_path_needs_the_root_in_front() {
    assert_eq!(relative_to("root", "other/a"), None);
    assert_eq!(relative_to("root", "roo"), None);
    assert_eq!(relative_to("root", "rootling/a"), None);
    assert_eq!(relative_to("root/a", "root"), None);
    assert_eq!(relative_to(".", "a"), None);
    assert_eq!(relative_to("a", "./a"), None);
    assert_eq!(relative_to("/a", "a/b"), None);
    assert_eq!(relative_to("", "a"), None);
    assert_eq!(relative_to("", ""), None);
}

#[test]
fn relative_paths_and_names_keep_the_order() {
    let paths = strings(&["r/b", "x", "r", "r/a/c"]);
    assert_eq!(relative_paths(&paths, "r"), strings(&["b", "", "a/c"]));
    let files = strings(&["r/b.asp", "x.asp", "r/a/c.asp"]);
    let named: Vec<(String, String)> = name_sources(&files, "r")
        .iter()
        .map(|source| (source.path.clone(), source.name.clone()))
        .collect();
    assert_eq!(named, vec![pair("r/b.asp", "b.asp"), pair("r/a/c.asp", "a/c.asp")]);
}

#[test]
fn plan_of_a_walk_from_the_current_directory() {
    let entries = vec![
        dir("."),
        dir("./a"),
        file("./a/x.asp"),
        dir("./exportados"),
        dir("./exportados/a"),
        file("./exportados/a/x.csv"),
        file("./top.asp"),
    ];
    let plan = plan_conversion(entries, ".", "exportados", "exportados");
    assert_eq!(
        plan.directories,
        strings(&["exportados/a", "exportados/exportados", "exportados/exportados/a"])
    );
    assert_eq!(
        sources_of(&plan),
        vec![pair("./a/x.asp", "a/x.asp"), pair("./top.asp", "top.asp")]
    );
}

#[test]
fn directory_of_reserved_segments_only_is_dropped() {
    assert!(!keeps_directory("exportados", "exportados"));
    assert!(!keeps_directory("exportados/exportados", "exportados"));
    assert!(!keeps_directory("exportados/exportados/exportados", "exportados"));
    assert!(!keeps_directory("exportados/", "exportados"));
    assert!(!keeps_directory("exportados//exportados/.", "exportados"));
    let entries = vec![dir("exportados"), dir("exportados/exportados"), dir("a")];
    let scan = partition_entries(entries, "exportados");
    assert_eq!(scan.directories, strings(&["a"]));
}

#[test]
fn directory_with_another_segment_is_kept() {
    assert!(keeps_directory("a", "exportados"));
    assert!(keeps_directory(".", "exportados"));
    assert!(keeps_directory("./exportados", "exportados"));
    assert!(keeps_directory("root/exportados", "exportados"));
    assert!(keeps_directory("exportados/a", "exportados"));
    assert!(keeps_directory("/exportados", "exportados"));
    assert!(keeps_directory("Exportados", "exportados"));
    assert!(keeps_directory("exportados2", "exportados"));
}

#[test]
fn directory_without_segments_is_dropped() {
    assert!(!keeps_directory("", "exportados"));
}

#[test]
fn mirror_skips_the_output_root_itself() {
    let directories = strings(&[".", "./a", "./a/b"]);
    assert_eq!(
        handle_folders(&directories, "exportados"),
        strings(&["exportados/./a", "exportados/./a/b"])
    );
    assert_eq!(handle_folders(&strings(&["", "."]), "exportados"), Vec::<String>::new());
    assert_eq!(handle_folders(&strings(&["/exportados", "/a", "/"]), "/exportados"), Vec::<String>::new());
}

#[test]
fn mirror_plans_the_same_targets_each_time() {
    let directories = strings(&[".", "./a", "./b", "./a/c"]);
    let first = handle_folders(&directories, "exportados");
    let second = handle_folders(&directories, "exportados");
    assert_eq!(first, second);
    assert_eq!(first, strings(&["exportados/./a", "exportados/./b", "exportados/./a/c"]));
}

#[test]
fn mirror_of_nothing_is_empty() {
    assert_eq!(handle_folders(&Vec::new(), "exportados"), Vec::<String>::new());
}

#[test]
fn extension_is_matched_exactly() {
    assert!(extension_is_asp("x.asp"));
    assert!(extension_is_asp("./a/b/x.asp"));
    assert!(extension_is_asp("x.y.asp"));
    assert!(extension_is_asp(".asp"));
    assert!(!extension_is_asp("x.ASP"));
    assert!(!extension_is_asp("x.Asp"));
    assert!(!extension_is_asp("x.asp.txt"));
    assert!(!extension_is_asp("x.aspx"));
    assert!(!extension_is_asp("xasp"));
    assert!(!extension_is_asp("x.txt"));
    assert!(!extension_is_asp("asp"));
    assert!(!extension_is_asp(""));
}

#[test]
fn sources_are_selected_in_order() {
    let files = strings(&["b.asp", "a.txt", "a.asp", "c.csv", "d/e.asp"]);
    assert_eq!(select_sources(&files), strings(&["b.asp", "a.asp", "d/e.asp"]));
    assert_eq!(select_sources(&Vec::new()), Vec::<String>::new());
}

#[test]
fn mirror_leaves_out_directories_without_a_name() {
    for nameless in ["", ".", "./", "././", ".//."] {
        assert_eq!(
            handle_folders(&strings(&[nameless]), "exportados"),
            Vec::<String>::new(),
            "{:?}",
            nameless
        );
    }
    for named in ["a", "./a", "a/.", "..", "./.a", "exportados", "a/b"] {
        assert_eq!(
            handle_folders(&strings(&[named]), "exportados"),
            vec![format!("exportados/{}", named)],
            "{:?}",
            named
        );
    }
}

#[test]
fn reserved_folder_nested_in_itself_is_dropped_at_any_depth() {
    let mut path = String::from("exportados");
    for _ in 0..6 {
        assert!(!keeps_directory(&path, "exportados"), "{:?}", path);
        path = format!("{}/exportados", path);
    }
}

#[test]
fn whatever_lies_below_a_kept_directory_is_kept() {
    for base in ["a", ".", "root/b", "/"] {
        assert!(keeps_directory(base, "exportados"));
        for rel in ["exportados", "x", "exportados/exportados", ""] {
            let below = asp_spectra::path::join_paths(base, rel);
            assert!(keeps_directory(&below, "exportados"), "{:?}", below);
        }
    }
}
