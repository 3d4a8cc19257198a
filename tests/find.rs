use fstools::query::{name_matches, Kind, SearchQuery};
use fstools::walker::{DirEntry, NotFound, Walker};

fn file(path: &str, name: &str) -> DirEntry {
    DirEntry { path: path.to_string(), name: name.to_string(), is_dir: false }
}

fn dir(path: &str, name: &str) -> DirEntry {
    DirEntry { path: path.to_string(), name: name.to_string(), is_dir: true }
}

fn query(name: &str, kind: Kind) -> SearchQuery {
    SearchQuery { name: name.to_string(), kind }
}

/// Drives a walk over an in-memory tree given as (directory, listing) pairs.
fn search(tree: &[(&str, Vec<DirEntry>)], root: &str, q: SearchQuery) -> Result<Vec<String>, NotFound> {
    let mut w = Walker::new(root.to_string(), q);
    while let Some(d) = w.next_dir() {
        let listing = tree
            .iter()
            .find(|(p, _)| *p == d.as_str())
            .map(|(_, l)| l.clone())
            .expect("every directory of the tree has a listing");
        w.absorb(listing);
    }
    w.finish()
}

/// root/{a.txt, sub/{a.txt, b.txt}}
fn small_tree() -> Vec<(&'static str, Vec<DirEntry>)> {
    vec![
        ("root", vec![file("root/a.txt", "a.txt"), dir("root/sub", "sub")]),
        ("root/sub", vec![file("root/sub/a.txt", "a.txt"), file("root/sub/b.txt", "b.txt")]),
    ]
}

/// root/{d1/{x, deep/{target}}, d2/{y}, z}
fn wider_tree() -> Vec<(&'static str, Vec<DirEntry>)> {
    vec![
        ("root", vec![dir("root/d1", "d1"), dir("root/d2", "d2"), file("root/z", "z")]),
        ("root/d1", vec![file("root/d1/x", "x"), dir("root/d1/deep", "deep")]),
        ("root/d2", vec![file("root/d2/y", "y")]),
        ("root/d1/deep", vec![file("root/d1/deep/target", "target")]),
    ]
}

fn strings(v: &[&str]) -> Vec<String> {
    v.iter().map(|s| s.to_string()).collect()
}

#[test]
fn file_search_reports_matches_at_every_level_in_breadth_first_order() {
    let r = search(&small_tree(), "root", query("a.txt", Kind::File)).unwrap();
    assert_eq!(r, strings(&["root/a.txt", "root/sub/a.txt"]));
}

#[test]
fn directory_search_for_missing_name_is_not_found() {
    let e = search(&small_tree(), "root", query("missing", Kind::Directory)).unwrap_err();
    assert_eq!(e.kind, Kind::Directory);
    assert_eq!(e.name, "missing");
    assert_eq!(e.message(), "Directory 'missing' not found");
}

#[test]
fn empty_name_in_file_mode_lists_every_entry_level_by_level() {
    let r = search(&wider_tree(), "root", query("", Kind::File)).unwrap();
    assert_eq!(
        r,
        strings(&["root/d1", "root/d2", "root/z", "root/d1/x", "root/d1/deep", "root/d2/y", "root/d1/deep/target"])
    );
}

#[test]
fn empty_name_in_directory_mode_lists_every_directory() {
    let r = search(&wider_tree(), "root", query("", Kind::Directory)).unwrap();
    assert_eq!(r, strings(&["root/d1", "root/d2", "root/d1/deep"]));
}

#[test]
fn unique_name_deep_in_the_tree_is_the_whole_result() {
    let r = search(&wider_tree(), "root", query("target", Kind::File)).unwrap();
    assert_eq!(r, strings(&["root/d1/deep/target"]));
    let r = search(&wider_tree(), "root", query("deep", Kind::Directory)).unwrap();
    assert_eq!(r, strings(&["root/d1/deep"]));
}

#[test]
fn absent_file_name_is_not_found() {
    let e = search(&wider_tree(), "root", query("nothing", Kind::File)).unwrap_err();
    assert_eq!(e.kind, Kind::File);
    assert_eq!(e.name, "nothing");
    assert_eq!(e.message(), "File 'nothing' not found");
}

#[test]
fn directory_mode_skips_files_with_the_name() {
    let e = search(&wider_tree(), "root", query("x", Kind::Directory)).unwrap_err();
    assert_eq!(e.kind, Kind::Directory);
}

#[test]
fn file_mode_also_reports_directories_with_the_name() {
    let r = search(&wider_tree(), "root", query("d2", Kind::File)).unwrap();
    assert_eq!(r, strings(&["root/d2"]));
}

#[test]
fn same_directory_name_at_two_depths_is_reported_twice() {
    let tree = vec![
        ("r", vec![dir("r/n", "n")]),
        ("r/n", vec![dir("r/n/n", "n")]),
        ("r/n/n", vec![]),
    ];
    let r = search(&tree, "r", query("n", Kind::Directory)).unwrap();
    assert_eq!(r, strings(&["r/n", "r/n/n"]));
}

#[test]
fn repeated_search_gives_identical_results() {
    let first = search(&wider_tree(), "root", query("", Kind::File)).unwrap();
    let second = search(&wider_tree(), "root", query("", Kind::File)).unwrap();
    assert_eq!(first, second);
}

#[test]
fn empty_root_is_not_found_even_for_empty_name() {
    let tree = vec![("e", vec![])];
    let e = search(&tree, "e", query("", Kind::File)).unwrap_err();
    assert_eq!(e.name, "");
}

#[test]
fn walker_asks_for_directories_in_queue_order() {
    let mut w = Walker::new("root".to_string(), query("", Kind::File));
    assert!(!w.is_done());
    assert_eq!(w.next_dir(), Some("root".to_string()));
    w.absorb(vec![dir("root/a", "a"), file("root/f", "f"), dir("root/b", "b")]);
    assert_eq!(w.next_dir(), Some("root/a".to_string()));
    w.absorb(vec![]);
    assert_eq!(w.next_dir(), Some("root/b".to_string()));
    w.absorb(vec![]);
    assert!(w.is_done());
    assert_eq!(w.next_dir(), None);
    assert_eq!(w.finish().unwrap(), strings(&["root/a", "root/f", "root/b"]));
}

#[test]
fn name_matcher_is_exact_or_empty() {
    let s = |x: &str| x.to_string();
    assert!(name_matches(&s("a.txt"), &s("a.txt")));
    assert!(name_matches(&s("a.txt"), &s("")));
    assert!(!name_matches(&s("a.txt"), &s("A.txt")));
    assert!(!name_matches(&s("a.txt"), &s("a")));
    let q = query("a", Kind::Directory);
    assert!(q.admits(&s("a"), true));
    assert!(!q.admits(&s("a"), false));
}
