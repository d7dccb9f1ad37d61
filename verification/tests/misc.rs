use gv::commits::{include_uncommitted, plan_diff, selected_hashes, Commit, DiffPlan};
use gv::syntax::{detect_language, extension, fallback_extension, language_for_extension};
use gv::text::{chars_of, str_equal, str_less, substring};
use gv::view::{FocusArea, ViewMode};
use gv::worktree::{choose_main_branch, find_current_worktree, is_path_within, Worktree};

#[test]
fn test_commit_struct() {
    let commit = Commit {
        hash: "abc1234".to_string(),
        full_hash: "abc1234567890".to_string(),
        subject: "Test commit".to_string(),
        selected: true,
        is_uncommitted: false,
    };

    assert_eq!(commit.hash, "abc1234");
    assert!(!commit.is_uncommitted);
}

#[test]
fn test_detect_language() {
    assert_eq!(detect_language("main.rs"), "Rust");
    assert_eq!(detect_language("app.go"), "Go");
    assert_eq!(detect_language("index.ts"), "TypeScript");
    assert_eq!(detect_language("unknown.xyz"), "Plain Text");
}

#[test]
fn language_table_is_complete() {
    let table = [
        ("rs", "Rust"),
        ("go", "Go"),
        ("js", "JavaScript"),
        ("ts", "TypeScript"),
        ("tsx", "TypeScript React"),
        ("jsx", "JavaScript React"),
        ("py", "Python"),
        ("rb", "Ruby"),
        ("java", "Java"),
        ("c", "C"),
        ("cpp", "C++"),
        ("cc", "C++"),
        ("cxx", "C++"),
        ("h", "C/C++ Header"),
        ("hpp", "C/C++ Header"),
        ("md", "Markdown"),
        ("json", "JSON"),
        ("yaml", "YAML"),
        ("yml", "YAML"),
        ("toml", "TOML"),
        ("html", "HTML"),
        ("css", "CSS"),
        ("scss", "Sass"),
        ("sass", "Sass"),
        ("sql", "SQL"),
        ("sh", "Shell"),
        ("bash", "Shell"),
        ("dockerfile", "Dockerfile"),
        ("", "Plain Text"),
        ("RS", "Plain Text"),
    ];
    for (ext, language) in table {
        assert_eq!(language_for_extension(ext), language);
    }
}

#[test]
fn extension_is_what_follows_the_last_dot_of_the_name() {
    assert_eq!(extension("src/main.rs"), Some("rs".to_string()));
    assert_eq!(extension("archive.tar.gz"), Some("gz".to_string()));
    assert_eq!(extension("src.d/Makefile"), None);
    assert_eq!(extension(".gitignore"), None);
    assert_eq!(extension("dir/.hidden.txt"), Some("txt".to_string()));
    assert_eq!(extension("name."), Some("".to_string()));
    assert_eq!(extension(""), None);
    assert_eq!(detect_language("dir.rs/notes"), "Plain Text");
    assert_eq!(detect_language("a/b/style.scss"), "Sass");
}

#[test]
fn fallback_extensions() {
    assert_eq!(fallback_extension("ts"), Some("js"));
    assert_eq!(fallback_extension("tsx"), Some("js"));
    assert_eq!(fallback_extension("mts"), Some("js"));
    assert_eq!(fallback_extension("cts"), Some("js"));
    assert_eq!(fallback_extension("jsx"), Some("js"));
    assert_eq!(fallback_extension("vue"), Some("html"));
    assert_eq!(fallback_extension("svelte"), Some("html"));
    assert_eq!(fallback_extension("zsh"), Some("sh"));
    assert_eq!(fallback_extension("fish"), Some("sh"));
    assert_eq!(fallback_extension("jsonc"), Some("json"));
    assert_eq!(fallback_extension("rs"), None);
}

#[test]
fn text_order_is_that_of_strings() {
    let words = ["", "a", "a-b", "a/b", "ab", "b", "é", "日本"];
    for x in words {
        for y in words {
            assert_eq!(str_less(x, y), x < y, "{:?} {:?}", x, y);
            assert_eq!(str_equal(x, y), x == y);
        }
    }
    assert_eq!(chars_of("héllo"), vec!['h', 'é', 'l', 'l', 'o']);
    assert_eq!(substring("héllo wörld", 1, 5), "éllo");
    assert_eq!(substring("abc", 3, 3), "");
}

#[test]
fn commits_and_their_selection() {
    let uncommitted = Commit::uncommitted();
    assert_eq!(uncommitted.hash, "-------");
    assert_eq!(uncommitted.full_hash, "");
    assert_eq!(uncommitted.subject, "(uncommitted changes)");
    assert!(uncommitted.selected && uncommitted.is_uncommitted);
    let first = Commit::from_hash("0123456789abcdef", "first").unwrap();
    assert_eq!(first.hash, "0123456");
    assert_eq!(first.full_hash, "0123456789abcdef");
    assert_eq!(first.subject, "first");
    assert!(first.selected && !first.is_uncommitted);
    assert!(Commit::from_hash("012345", "short").is_none());
    let mut second = Commit::from_hash("fedcba9876543210", "second").unwrap();
    second.selected = false;
    let third = Commit::from_hash("aaaaaaaaaaaaaaaa", "third").unwrap();
    let commits = vec![uncommitted, first, second, third];
    assert!(include_uncommitted(&commits));
    assert_eq!(selected_hashes(&commits), vec!["0123456789abcdef", "aaaaaaaaaaaaaaaa"]);
    assert!(!include_uncommitted(&commits[1..]));
    let mut off = commits.clone();
    off[0].selected = false;
    assert!(!include_uncommitted(&off));
}

#[test]
fn diff_plans() {
    assert_eq!(plan_diff(true, false), DiffPlan::HeadToWorkdir);
    assert_eq!(plan_diff(true, true), DiffPlan::BaseToWorkdir);
    assert_eq!(plan_diff(false, true), DiffPlan::BaseToHead);
    assert_eq!(plan_diff(false, false), DiffPlan::Nothing);
}

fn worktree(path: &str, branch: &str) -> Worktree {
    Worktree { path: path.to_string(), branch: Some(branch.to_string()), is_current: false }
}

#[test]
fn current_worktree_is_the_closest_holder() {
    let mut worktrees =
        vec![worktree("/repo", "main"), worktree("/repo/.worktrees/feature", "feature")];
    let resolved =
        vec![Some("/repo".to_string()), Some("/repo/.worktrees/feature".to_string())];
    let found = find_current_worktree(&mut worktrees, &resolved, "/repo/.worktrees/feature/src");
    assert_eq!(found, Some(1));
    assert!(worktrees[1].is_current);
    assert!(!worktrees[0].is_current);
    assert_eq!(worktrees[1].path, "/repo/.worktrees/feature");
    assert_eq!(worktrees[1].branch.as_deref(), Some("feature"));

    let mut worktrees =
        vec![worktree("/repo", "main"), worktree("/repo/.worktrees/feature", "feature")];
    assert_eq!(find_current_worktree(&mut worktrees, &resolved, "/repo/src"), Some(0));
    assert!(worktrees[0].is_current);
    assert_eq!(find_current_worktree(&mut worktrees, &resolved, "/repository"), None);
    assert_eq!(find_current_worktree(&mut worktrees, &resolved, "/repo"), Some(0));
}

#[test]
fn current_worktree_skips_unresolved_and_takes_the_first_on_a_tie() {
    let mut worktrees = vec![worktree("/a", "x"), worktree("/b", "y"), worktree("/b", "z")];
    let resolved = vec![None, Some("/b".to_string()), Some("/b".to_string())];
    assert_eq!(find_current_worktree(&mut worktrees, &resolved, "/a/file"), None);
    assert!(worktrees.iter().all(|w| !w.is_current));
    assert_eq!(find_current_worktree(&mut worktrees, &resolved, "/b/file"), Some(1));
    assert!(worktrees[1].is_current && !worktrees[2].is_current);
    let root = vec![Some("/".to_string()), None, None];
    assert_eq!(find_current_worktree(&mut worktrees, &root, "/b/file"), Some(0));
}

#[test]
fn main_branch_is_the_first_that_exists() {
    assert_eq!(choose_main_branch(true, true, true, true), "origin/main");
    assert_eq!(choose_main_branch(false, true, true, true), "origin/master");
    assert_eq!(choose_main_branch(false, false, true, true), "main");
    assert_eq!(choose_main_branch(false, false, false, true), "master");
    assert_eq!(choose_main_branch(false, false, false, false), "main");
}

#[test]
fn a_path_lies_within_a_directory_by_whole_components() {
    let within = |path: &str, base: &str| {
        let p: Vec<char> = path.chars().collect();
        let b: Vec<char> = base.chars().collect();
        is_path_within(&p, &b)
    };
    assert!(within("/repo/src", "/repo"));
    assert!(within("/repo", "/repo"));
    assert!(within("/repo/src", "/"));
    assert!(within("/repo/src", "/repo/"));
    assert!(!within("/repository", "/repo"));
    assert!(!within("/rep", "/repo"));
    assert!(!within("/other", "/repo"));
    assert!(within("/repo", ""));
    assert!(!within("repo", ""));
}

#[test]
fn view_modes_and_focus_areas_compare() {
    assert_eq!(ViewMode::Diff, ViewMode::Diff);
    assert_ne!(ViewMode::Help, ViewMode::CommitFilter);
    assert_ne!(ViewMode::WorktreeList, ViewMode::WorktreeSwitcher);
    assert_ne!(FocusArea::Sidebar, FocusArea::Content);
}
