use gv::cache::LineCache;
use gv::diff::FileDiff;
use gv::file_tree::{build_file_tree, flatten_tree, is_hidden_file, visible_nodes, TreeNode};
use gv::names::{find_unique_suffix, get_display_names};
use gv::path_map::{CollapseMap, PathMap};

fn diff(path: &str, added: usize, removed: usize) -> FileDiff {
    FileDiff {
        path: path.to_string(),
        old_path: None,
        old_content: None,
        new_content: None,
        added,
        removed,
        hunks: vec![],
        collapsed: false,
        is_binary: false,
    }
}

fn paths<'a>(nodes: &[&'a TreeNode]) -> Vec<&'a str> {
    nodes.iter().map(|n| n.path.as_str()).collect()
}

#[test]
fn test_get_display_names() {
    let diffs = vec![
        FileDiff {
            path: "src/components/Button.tsx".to_string(),
            old_path: None,
            old_content: None,
            new_content: None,
            added: 10,
            removed: 5,
            hunks: vec![],
            collapsed: false,
            is_binary: false,
        },
        FileDiff {
            path: "src/pages/Button.tsx".to_string(),
            old_path: None,
            old_content: None,
            new_content: None,
            added: 3,
            removed: 1,
            hunks: vec![],
            collapsed: false,
            is_binary: false,
        },
    ];

    let names = get_display_names(&diffs);
    assert_eq!(names.get("src/components/Button.tsx"), Some(&"components/Button.tsx".to_string()));
    assert_eq!(names.get("src/pages/Button.tsx"), Some(&"pages/Button.tsx".to_string()));
}

#[test]
fn display_name_of_a_single_file_is_its_last_component() {
    let diffs = vec![diff("src/main.rs", 1, 0), diff("README.md", 0, 1)];
    let names = get_display_names(&diffs);
    assert_eq!(names.get("src/main.rs"), Some(&"main.rs".to_string()));
    assert_eq!(names.get("README.md"), Some(&"README.md".to_string()));
    assert_eq!(names.get("src"), None);
}

#[test]
fn display_name_ignores_files_that_only_end_alike() {
    // "xmod.rs" ends with "mod.rs" but has another last component.
    let diffs = vec![diff("a/mod.rs", 1, 0), diff("b/xmod.rs", 1, 0)];
    let names = get_display_names(&diffs);
    assert_eq!(names.get("a/mod.rs"), Some(&"mod.rs".to_string()));
    assert_eq!(names.get("b/xmod.rs"), Some(&"xmod.rs".to_string()));
}

#[test]
fn unique_suffix_grows_by_whole_components() {
    let all = vec!["a/x/mod.rs".to_string(), "b/x/mod.rs".to_string(), "b/y/mod.rs".to_string()];
    assert_eq!(find_unique_suffix("a/x/mod.rs", &all), "a/x/mod.rs");
    assert_eq!(find_unique_suffix("b/y/mod.rs", &all), "y/mod.rs");
    assert_eq!(find_unique_suffix("b/x/mod.rs", &all), "b/x/mod.rs");
}

#[test]
fn unique_suffix_falls_back_to_the_path() {
    let all = vec!["a/mod.rs".to_string(), "a/mod.rs".to_string()];
    assert_eq!(find_unique_suffix("a/mod.rs", &all), "a/mod.rs");
    let none: Vec<String> = vec![];
    assert_eq!(find_unique_suffix("a/mod.rs", &none), "a/mod.rs");
}

#[test]
fn hidden_files_are_dotfiles_and_lock_files() {
    assert!(is_hidden_file(".gitignore"));
    assert!(is_hidden_file(".github/workflows/ci.yml"));
    assert!(is_hidden_file("src/.cache/data"));
    assert!(is_hidden_file("Cargo.lock"));
    assert!(is_hidden_file("web/package-lock.json"));
    assert!(is_hidden_file("go.sum"));
    assert!(is_hidden_file("yarn.lock"));
    assert!(is_hidden_file("pnpm-lock.yaml"));
    assert!(is_hidden_file("Gemfile.lock"));
    assert!(is_hidden_file("poetry.lock"));
    assert!(is_hidden_file("composer.lock"));
    assert!(!is_hidden_file("src/main.rs"));
    assert!(!is_hidden_file("src/a.b/file.txt"));
    assert!(!is_hidden_file("Cargo.lock/readme"));
    assert!(!is_hidden_file("xCargo.lock"));
    assert!(!is_hidden_file(""));
}

#[test]
fn tree_lists_folders_before_their_files_in_path_order() {
    let diffs = vec![diff("src/ui/view.rs", 4, 1), diff("README.md", 2, 2), diff("src/app.rs", 10, 3)];
    let tree = build_file_tree(&diffs, &CollapseMap::new());
    let listed: Vec<(&str, bool, usize, usize, usize, Option<usize>)> = tree
        .iter()
        .map(|n| (n.path.as_str(), n.is_folder, n.depth, n.added, n.removed, n.diff_index))
        .collect();
    assert_eq!(
        listed,
        vec![
            ("README.md", false, 0, 2, 2, Some(1)),
            ("src", true, 0, 14, 4, None),
            ("src/app.rs", false, 1, 10, 3, Some(2)),
            ("src/ui", true, 1, 4, 1, None),
            ("src/ui/view.rs", false, 2, 4, 1, Some(0)),
        ]
    );
    assert_eq!(tree[3].name, "ui");
    assert_eq!(tree[4].name, "view.rs");
    assert!(tree[1].expanded);
    assert!(!tree[0].expanded);
    assert!(!tree[1].is_hidden);
}

#[test]
fn tree_of_no_files_is_empty() {
    let tree = build_file_tree(&[], &CollapseMap::new());
    assert!(tree.is_empty());
}

#[test]
fn tree_marks_hidden_nodes_and_closed_folders() {
    let diffs = vec![diff(".github/ci.yml", 1, 0), diff("Cargo.lock", 5, 5)];
    let mut states = CollapseMap::new();
    states.insert(".github", false);
    let tree = build_file_tree(&diffs, &states);
    assert_eq!(tree[0].path, ".github");
    assert!(tree[0].is_hidden);
    assert!(!tree[0].expanded);
    assert!(tree[1].is_hidden);
    assert_eq!(tree[2].path, "Cargo.lock");
    assert!(tree[2].is_hidden);
}

#[test]
fn collapsing_a_folder_hides_its_two_files_and_keeps_the_folder() {
    let diffs = vec![diff("dir/x.txt", 1, 0), diff("dir/y.txt", 0, 1)];
    let mut states = CollapseMap::new();
    let open = build_file_tree(&diffs, &states);
    assert_eq!(paths(&flatten_tree(&open)), vec!["dir", "dir/x.txt", "dir/y.txt"]);
    assert!(!states.toggle("dir"));
    let closed = build_file_tree(&diffs, &states);
    let flat = flatten_tree(&closed);
    assert_eq!(flatten_tree(&open).len() - flat.len(), 2);
    assert_eq!(paths(&flat), vec!["dir"]);
    assert!(flat[0].is_folder);
    assert!(!flat[0].expanded);
    assert_eq!(visible_nodes(&closed), vec![0]);
}

#[test]
fn a_folder_hides_only_what_lies_below_it() {
    // "a-b" sorts between "a" and "a/x" and is not below "a".
    let diffs = vec![diff("a/x", 1, 0), diff("a-b", 1, 0), diff("a/y/z", 1, 0), diff("ab/c", 1, 0)];
    let mut states = CollapseMap::new();
    states.insert("a", false);
    let tree = build_file_tree(&diffs, &states);
    let all: Vec<&str> = tree.iter().map(|n| n.path.as_str()).collect();
    assert_eq!(all, vec!["a", "a-b", "a/x", "a/y", "a/y/z", "ab", "ab/c"]);
    assert_eq!(paths(&flatten_tree(&tree)), vec!["a", "a-b", "ab", "ab/c"]);
}

#[test]
fn flattening_twice_changes_nothing() {
    let diffs = vec![diff("a/b/c.rs", 1, 0), diff("a/d.rs", 1, 0), diff("e.rs", 1, 0)];
    let mut states = CollapseMap::new();
    states.insert("a/b", false);
    let tree = build_file_tree(&diffs, &states);
    let once: Vec<TreeNode> = flatten_tree(&tree).into_iter().cloned().collect();
    assert_eq!(paths(&flatten_tree(&tree)), vec!["a", "a/b", "a/d.rs", "e.rs"]);
    assert_eq!(paths(&flatten_tree(&once)), vec!["a", "a/b", "a/d.rs", "e.rs"]);
}

#[test]
fn toggling_a_folder_twice_restores_the_flattened_list() {
    let diffs = vec![diff("a/b/c.rs", 1, 0), diff("a/d.rs", 1, 0), diff("e.rs", 1, 0)];
    let mut states = CollapseMap::new();
    let before = build_file_tree(&diffs, &states);
    assert!(!states.toggle("a"));
    let between = build_file_tree(&diffs, &states);
    assert_eq!(paths(&flatten_tree(&between)), vec!["a", "e.rs"]);
    assert!(states.toggle("a"));
    let after = build_file_tree(&diffs, &states);
    assert_eq!(paths(&flatten_tree(&after)), paths(&flatten_tree(&before)));
    assert_eq!(states.get("a"), Some(&true));
}

#[test]
fn path_map_keeps_the_last_value_of_a_path() {
    let mut map: PathMap<u32> = PathMap::new();
    assert_eq!(map.get("a"), None);
    assert!(!map.contains("a"));
    map.insert("a", 1);
    map.insert("b", 2);
    map.insert("a", 3);
    assert_eq!(map.get("a"), Some(&3));
    assert_eq!(map.get("b"), Some(&2));
    assert!(map.contains("b"));
    let mut states = CollapseMap::new();
    assert!(states.expanded("x"));
    states.insert("x", false);
    assert!(!states.expanded("x"));
}

#[test]
fn path_map_forgets_paths() {
    let mut map: PathMap<u32> = PathMap::new();
    map.insert("a", 1);
    map.insert("b", 2);
    map.insert("c", 3);
    map.remove("b");
    assert_eq!(map.get("b"), None);
    assert_eq!(map.get("a"), Some(&1));
    assert_eq!(map.get("c"), Some(&3));
    map.remove("zzz");
    assert_eq!(map.get("a"), Some(&1));
    map.clear();
    assert_eq!(map.get("a"), None);
    assert_eq!(map.get("c"), None);
}

#[test]
fn line_cache_keeps_lines_until_they_are_forgotten() {
    let mut cache: LineCache<&str> = LineCache::new();
    assert_eq!(cache.lines("a.rs", 2), None);
    assert_eq!(cache.line("a.rs", 0), None);
    cache.store("a.rs", vec![vec!["fn", " ", "main"], vec!["}"]]);
    cache.store("a.rs::full::old", vec![vec!["old"]]);
    assert_eq!(cache.lines("a.rs", 2), Some(&vec![vec!["fn", " ", "main"], vec!["}"]]));
    // Another number of lines is another text.
    assert_eq!(cache.lines("a.rs", 3), None);
    assert_eq!(cache.line("a.rs", 1), Some(&vec!["}"]));
    assert_eq!(cache.line("a.rs", 2), None);
    assert_eq!(cache.line("a.rs::full::old", 0), Some(&vec!["old"]));
    assert_eq!(cache.line("a.rs::full::new", 0), None);
    cache.store("a.rs", vec![vec!["x"]]);
    assert_eq!(cache.lines("a.rs", 1), Some(&vec![vec!["x"]]));
    cache.invalidate("a.rs");
    assert_eq!(cache.lines("a.rs", 1), None);
    assert_eq!(cache.line("a.rs::full::old", 0), Some(&vec!["old"]));
    cache.clear();
    assert_eq!(cache.line("a.rs::full::old", 0), None);
}
