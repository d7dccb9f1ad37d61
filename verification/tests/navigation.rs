use gv::commits::Commit;
use gv::diff::{DiffLine, FileDiff, Hunk, LineType};
use gv::filter::{contains_text, matching_worktrees, worktree_matches};
use gv::index::DiffMode;
use gv::input::{digit_value, Action, Key, Modifiers, MouseKind};
use gv::limits::{checked_open_line_count, fits_limits};
use gv::nav::{
    content_height, move_cursor, scroll_content, scroll_into_view, scroll_window, set_cursor,
    sidebar_height, step,
};
use gv::cache::LineCache;
use gv::state::{load_diffs, AppState};
use gv::view::{FocusArea, ViewMode};
use gv::worktree::Worktree;

fn removed(n: u32) -> DiffLine {
    DiffLine {
        line_type: LineType::Removed,
        content: format!("old {}", n),
        old_lineno: Some(n),
        new_lineno: None,
    }
}

fn added(n: u32) -> DiffLine {
    DiffLine {
        line_type: LineType::Added,
        content: format!("new {}", n),
        old_lineno: None,
        new_lineno: Some(n),
    }
}

fn context(n: u32) -> DiffLine {
    DiffLine {
        line_type: LineType::Context,
        content: format!("same {}", n),
        old_lineno: Some(n),
        new_lineno: Some(n),
    }
}

/// A file with one hunk of `lines` context lines: `2 + lines` rows.
fn file(path: &str, lines: u32) -> FileDiff {
    FileDiff {
        path: path.to_string(),
        old_path: None,
        old_content: None,
        new_content: None,
        added: 0,
        removed: 0,
        hunks: vec![Hunk {
            old_start: 1,
            old_count: lines,
            new_start: 1,
            new_count: lines,
            header: String::new(),
            lines: (1..=lines).map(context).collect(),
        }],
        collapsed: false,
        is_binary: false,
    }
}

fn state(files: Vec<FileDiff>, height: u16) -> AppState {
    let mut state = AppState::new("/repo".to_string());
    assert!(state.set_diffs(files));
    state.resize(120, height);
    state
}

fn plain(state: &mut AppState, c: char) -> Action {
    state.handle_key(Key::Char(c), Modifiers::Plain)
}

#[test]
fn moving_down_twelve_rows_scrolls_by_three() {
    assert_eq!(move_cursor(0, 0, 12, true, 50, 10), (12, 3));
    // The same through the state: 50 files in the list, 10 rows of it on screen.
    let files: Vec<FileDiff> = (0..50).map(|i| file(&format!("f{:02}", i), 1)).collect();
    let mut state = state(files, 14);
    assert_eq!(state.sidebar_visible_height(), 10);
    assert_eq!(state.sidebar_len(), 50);
    state.handle_key(Key::Tab, Modifiers::Plain);
    assert_eq!(state.focus, FocusArea::Sidebar);
    plain(&mut state, '1');
    plain(&mut state, '2');
    assert_eq!(state.number_prefix, Some(12));
    assert_eq!(plain(&mut state, 'j'), Action::Continue);
    assert_eq!(state.file_cursor, 12);
    assert_eq!(state.sidebar_scroll, 3);
    assert_eq!(state.number_prefix, None);
}

#[test]
fn cursor_and_window_arithmetic() {
    assert_eq!(step(5, 3, true), 8);
    assert_eq!(step(5, 3, false), 2);
    assert_eq!(step(5, 9, false), 0);
    assert_eq!(step(usize::MAX - 1, 9, true), usize::MAX);
    assert_eq!(content_height(24), 22);
    assert_eq!(content_height(1), 0);
    assert_eq!(sidebar_height(24), 20);
    assert_eq!(sidebar_height(3), 0);
    assert_eq!(scroll_into_view(2, 5, 50, 10), 2);
    assert_eq!(scroll_into_view(7, 5, 50, 10), 5);
    assert_eq!(scroll_into_view(15, 5, 50, 10), 6);
    assert_eq!(scroll_into_view(49, 45, 50, 10), 40);
    assert_eq!(scroll_into_view(3, 7, 50, 0), 7);
    assert_eq!(scroll_into_view(3, 2, 5, 10), 0);
    assert_eq!(set_cursor(99, 0, 50, 10), (49, 40));
    assert_eq!(set_cursor(4, 9, 0, 10), (0, 0));
    assert_eq!(move_cursor(12, 3, 20, false, 50, 10), (0, 0));
    assert_eq!(scroll_window(12, 3, 5, true, 50, 10), 8);
    assert_eq!(scroll_window(12, 3, 50, true, 50, 10), 12);
    assert_eq!(scroll_window(12, 3, 50, false, 50, 10), 3);
    assert_eq!(scroll_window(2, 1, 5, true, 8, 10), 0);
    assert_eq!(scroll_content(10, 5, true, 12), 12);
    assert_eq!(scroll_content(10, 5, false, 12), 5);
    assert_eq!(scroll_content(10, 50, false, 12), 0);
}

#[test]
fn content_scrolls_within_its_rows() {
    // Three files of 12 rows each: 36 rows, 10 on screen, so 26 at most.
    let mut state = state(vec![file("a", 10), file("b", 10), file("c", 10)], 12);
    assert_eq!(state.total_rows(), 36);
    assert_eq!(state.max_scroll(), 26);
    assert_eq!(state.get_current_file(), Some("a".to_string()));
    plain(&mut state, 'n');
    assert_eq!(state.content_scroll, 12);
    assert_eq!(state.get_current_file(), Some("b".to_string()));
    plain(&mut state, '5');
    plain(&mut state, 'n');
    assert_eq!(state.content_scroll, 24);
    plain(&mut state, 'j');
    assert_eq!(state.content_scroll, 25);
    plain(&mut state, 'N');
    assert_eq!(state.content_scroll, 24);
    plain(&mut state, '9');
    plain(&mut state, 'N');
    assert_eq!(state.content_scroll, 0);
    plain(&mut state, 'G');
    assert_eq!(state.content_scroll, 26);
    plain(&mut state, '4');
    plain(&mut state, 'G');
    assert_eq!(state.content_scroll, 3);
    plain(&mut state, 'g');
    assert_eq!(state.content_scroll, 0);
    state.handle_key(Key::Char('d'), Modifiers::Control);
    assert_eq!(state.content_scroll, 6);
    state.handle_key(Key::Char('u'), Modifiers::Control);
    assert_eq!(state.content_scroll, 0);
    state.handle_key(Key::Char('d'), Modifiers::Other);
    assert_eq!(state.content_scroll, 0);
}

#[test]
fn collapsing_files_keeps_the_scroll_in_range() {
    let mut state = state(vec![file("a", 10), file("b", 10), file("c", 10)], 12);
    plain(&mut state, 'G');
    assert_eq!(state.content_scroll, 26);
    plain(&mut state, 'z');
    assert!(state.diffs.iter().all(|d| d.collapsed));
    assert_eq!(state.total_rows(), 3);
    assert_eq!(state.content_scroll, 0);
    plain(&mut state, ' ');
    assert!(!state.diffs[0].collapsed);
    assert_eq!(state.total_rows(), 14);
    plain(&mut state, 'z');
    assert!(state.diffs.iter().all(|d| d.collapsed));
    plain(&mut state, 'z');
    assert!(state.diffs.iter().all(|d| !d.collapsed));
}

#[test]
fn layouts_cycle_and_hidden_files_show() {
    let mut hidden = file(".env", 1);
    hidden.hunks[0].lines = vec![removed(1), added(1)];
    let mut state = state(vec![file("a", 1), hidden], 12);
    assert_eq!(state.visible_diffs, vec![0]);
    assert_eq!(state.diff_mode, DiffMode::SideBySide);
    plain(&mut state, 'h');
    assert!(state.show_hidden);
    assert_eq!(state.visible_diffs, vec![0, 1]);
    assert_eq!(state.total_rows(), 6);
    plain(&mut state, 'u');
    assert_eq!(state.diff_mode, DiffMode::Unified);
    assert_eq!(state.total_rows(), 7);
    plain(&mut state, 'u');
    assert_eq!(state.diff_mode, DiffMode::SideBySideFull);
    plain(&mut state, 'u');
    assert_eq!(state.diff_mode, DiffMode::SideBySide);
    state.handle_key(Key::Char('h'), Modifiers::Control);
    assert!(state.show_hidden);
    plain(&mut state, 'h');
    assert_eq!(state.visible_diffs, vec![0]);
}

#[test]
fn context_lines_cycle_and_ask_for_a_reload() {
    let mut state = state(vec![file("a", 1)], 12);
    assert_eq!(state.context_lines, 3);
    assert_eq!(plain(&mut state, 'x'), Action::ReloadDiffs);
    assert_eq!(state.context_lines, 1);
    assert_eq!(plain(&mut state, 'x'), Action::ReloadDiffs);
    assert_eq!(state.context_lines, 0);
    assert_eq!(plain(&mut state, 'x'), Action::ReloadDiffs);
    assert_eq!(state.context_lines, 3);
    assert_eq!(plain(&mut state, 'q'), Action::Quit);
    assert_eq!(state.handle_key(Key::Esc, Modifiers::Plain), Action::Quit);
    assert_eq!(state.handle_key(Key::Other, Modifiers::Plain), Action::Continue);
}

#[test]
fn folders_toggle_under_the_cursor_and_the_cursor_follows() {
    let files = vec![file("a.rs", 1), file("dir/x.rs", 1), file("dir/y.rs", 1), file("z.rs", 1)];
    let mut state = state(files, 20);
    state.handle_key(Key::Tab, Modifiers::Plain);
    assert_eq!(state.sidebar_len(), 5);
    plain(&mut state, 'j');
    assert_eq!(state.sidebar_node(1).unwrap().1, "dir");
    plain(&mut state, ' ');
    assert_eq!(state.sidebar_len(), 3);
    assert_eq!(state.file_cursor, 1);
    assert_eq!(state.expanded_folders.get("dir"), Some(&false));
    plain(&mut state, ' ');
    assert_eq!(state.sidebar_len(), 5);
    assert_eq!(state.file_cursor, 1);
    assert_eq!(state.sidebar_node(state.file_cursor).unwrap().1, "dir");
    // Enter opens a closed folder and leaves an open one alone.
    plain(&mut state, ' ');
    state.handle_key(Key::Enter, Modifiers::Plain);
    assert_eq!(state.sidebar_len(), 5);
    state.handle_key(Key::Enter, Modifiers::Plain);
    assert_eq!(state.sidebar_len(), 5);
    // Enter on a file scrolls the content to it.
    plain(&mut state, '3');
    plain(&mut state, 'j');
    assert_eq!(state.sidebar_node(state.file_cursor).unwrap().1, "z.rs");
    state.resize(120, 6);
    state.handle_key(Key::Enter, Modifiers::Plain);
    assert_eq!(state.content_scroll, 8);
    // Space on a file collapses it.
    plain(&mut state, ' ');
    assert!(state.diffs[3].collapsed);
}

#[test]
fn the_cursor_follows_its_node_when_the_diff_set_changes() {
    let mut state = state(vec![file("a.rs", 1), file("dir/x.rs", 1), file("z.rs", 1)], 20);
    state.handle_key(Key::Tab, Modifiers::Plain);
    plain(&mut state, 'G');
    assert_eq!(state.sidebar_node(state.file_cursor).unwrap().1, "z.rs");
    assert_eq!(state.file_cursor, 3);
    // Two nodes more stand before the node under the cursor.
    assert!(state.set_diffs(vec![
        file("a.rs", 1),
        file("b/c.rs", 1),
        file("dir/x.rs", 1),
        file("z.rs", 1),
    ]));
    assert_eq!(state.file_cursor, 5);
    assert_eq!(state.sidebar_node(state.file_cursor).unwrap().1, "z.rs");
    // The node is gone: the cursor stays on its row, or on the last row.
    assert!(state.set_diffs(vec![file("a.rs", 1), file("b.rs", 1)]));
    assert_eq!(state.file_cursor, 1);
    assert!(state.set_diffs(vec![]));
    assert_eq!((state.file_cursor, state.sidebar_scroll), (0, 0));
    assert_eq!(state.get_current_file(), None);
}

#[test]
fn loading_a_diff_set_empties_the_cache() {
    let mut state = state(vec![file("a.rs", 1)], 20);
    let mut cache: LineCache<u8> = LineCache::new();
    cache.store("a.rs", vec![vec![1, 2]]);
    assert!(load_diffs(&mut state, &mut cache, vec![file("a.rs", 2), file("b.rs", 1)]));
    assert_eq!(cache.line("a.rs", 0), None);
    assert_eq!(state.diffs.len(), 2);
    assert_eq!(state.total_rows(), 7);
}

#[test]
fn clicks_select_rows_of_the_sidebar() {
    let files = vec![file("a.rs", 1), file("dir/x.rs", 1), file("dir/y.rs", 1), file("z.rs", 1)];
    let mut state = state(files, 8);
    state.handle_mouse(MouseKind::LeftDown, 50, 3);
    assert_eq!(state.focus, FocusArea::Content);
    state.handle_mouse(MouseKind::LeftDown, 3, 1);
    assert_eq!(state.focus, FocusArea::Sidebar);
    assert_eq!(state.file_cursor, 0);
    state.handle_mouse(MouseKind::LeftDown, 3, 4);
    assert_eq!(state.file_cursor, 2);
    assert_eq!(state.content_scroll, 3);
    state.handle_mouse(MouseKind::LeftDown, 3, 3);
    assert_eq!(state.file_cursor, 1);
    assert_eq!(state.sidebar_len(), 3);
    state.handle_mouse(MouseKind::LeftDown, 3, 6);
    assert_eq!(state.file_cursor, 1);
    state.handle_mouse(MouseKind::ScrollDown, 50, 0);
    assert_eq!(state.content_scroll, 6);
    state.handle_mouse(MouseKind::ScrollUp, 50, 0);
    assert_eq!(state.content_scroll, 1);
    state.handle_mouse(MouseKind::ScrollDown, 3, 0);
    assert_eq!(state.sidebar_scroll, 0);
    state.handle_mouse(MouseKind::Other, 3, 0);
    assert_eq!(state.file_cursor, 1);
}

#[test]
fn popups_open_and_close() {
    let mut state = state(vec![file("a", 1)], 12);
    plain(&mut state, '?');
    assert_eq!(state.view_mode, ViewMode::Help);
    plain(&mut state, 'j');
    assert_eq!(state.view_mode, ViewMode::Help);
    plain(&mut state, '?');
    assert_eq!(state.view_mode, ViewMode::Diff);
    plain(&mut state, 'c');
    assert_eq!(state.view_mode, ViewMode::CommitFilter);
    assert_eq!(state.handle_key(Key::Esc, Modifiers::Plain), Action::Continue);
    assert_eq!(state.view_mode, ViewMode::Diff);
    plain(&mut state, 'W');
    assert_eq!(state.view_mode, ViewMode::WorktreeList);
    plain(&mut state, 'q');
    assert_eq!(state.view_mode, ViewMode::Diff);
    plain(&mut state, 'w');
    assert_eq!(state.view_mode, ViewMode::WorktreeSwitcher);
    state.handle_key(Key::Char('w'), Modifiers::Control);
    assert_eq!(state.filter_input, "w");
}

#[test]
fn commit_filter_selects_commits() {
    let mut state = state(vec![file("a", 1)], 12);
    state.set_commits(vec![
        Commit::uncommitted(),
        Commit::from_hash("1111111aaaa", "one").unwrap(),
        Commit::from_hash("2222222bbbb", "two").unwrap(),
    ]);
    plain(&mut state, 'c');
    plain(&mut state, 'j');
    plain(&mut state, ' ');
    assert!(!state.commits[1].selected);
    plain(&mut state, 'j');
    plain(&mut state, 'j');
    assert_eq!(state.popup_cursor, 2);
    plain(&mut state, 'n');
    assert!(state.commits.iter().all(|c| !c.selected));
    plain(&mut state, 'a');
    assert!(state.commits.iter().all(|c| c.selected));
    plain(&mut state, 'k');
    plain(&mut state, 'k');
    plain(&mut state, 'k');
    assert_eq!(state.popup_cursor, 0);
    assert_eq!(state.handle_key(Key::Enter, Modifiers::Plain), Action::ReloadDiffs);
    assert_eq!(state.view_mode, ViewMode::Diff);
    assert_eq!(state.commits[1].hash, "1111111");
}

fn worktree(path: &str, branch: Option<&str>) -> Worktree {
    Worktree { path: path.to_string(), branch: branch.map(|b| b.to_string()), is_current: false }
}

#[test]
fn worktree_switcher_filters_and_switches() {
    let mut state = state(vec![file("a", 1)], 12);
    state.set_worktrees(
        vec![
            worktree("/repo", Some("main")),
            worktree("/repo/wt/Feature-X", Some("feature/x")),
            worktree("/repo/wt/detached", None),
        ],
        0,
    );
    plain(&mut state, 'w');
    for c in "FEAT".chars() {
        plain(&mut state, c);
    }
    assert_eq!(state.filter_input, "FEAT");
    state.handle_key(Key::Backspace, Modifiers::Plain);
    assert_eq!(state.filter_input, "FEA");
    assert_eq!(state.handle_key(Key::Enter, Modifiers::Plain), Action::LoadData);
    assert_eq!(state.repo_path, "/repo/wt/Feature-X");
    assert_eq!(state.current_worktree, 1);
    assert_eq!(state.view_mode, ViewMode::Diff);
    assert_eq!(state.filter_input, "");
    // Nothing matches: nothing is switched.
    plain(&mut state, 'w');
    plain(&mut state, 'z');
    assert_eq!(state.handle_key(Key::Enter, Modifiers::Plain), Action::Continue);
    assert_eq!(state.current_worktree, 1);
    // The list of worktrees switches by position.
    plain(&mut state, 'W');
    assert_eq!(state.popup_cursor, 1);
    state.handle_key(Key::Down, Modifiers::Plain);
    state.handle_key(Key::Down, Modifiers::Plain);
    assert_eq!(state.popup_cursor, 2);
    assert_eq!(state.handle_key(Key::Enter, Modifiers::Plain), Action::LoadData);
    assert_eq!(state.repo_path, "/repo/wt/detached");
    assert_eq!(state.current_worktree, 2);
}

#[test]
fn worktree_filter_ignores_case() {
    let wt = worktree("/Repo/Tree", Some("Feature/Login"));
    assert!(worktree_matches(&wt, ""));
    assert!(worktree_matches(&wt, "repo"));
    assert!(worktree_matches(&wt, "LOGIN"));
    assert!(!worktree_matches(&wt, "logout"));
    assert!(!worktree_matches(&worktree("/x", None), "main"));
    assert!(contains_text("hello", "ell"));
    assert!(contains_text("hello", ""));
    assert!(contains_text("hello", "hello"));
    assert!(contains_text("hello", "lo"));
    assert!(!contains_text("hello", "hellos"));
    assert!(!contains_text("hello", "eo"));
    assert!(!contains_text("", "a"));
    let all = vec![worktree("/a", Some("main")), worktree("/b", Some("dev")), worktree("/main2", None)];
    assert_eq!(matching_worktrees(&all, "MAIN"), vec![0, 2]);
    assert_eq!(matching_worktrees(&all, ""), vec![0, 1, 2]);
}

#[test]
fn digits_and_limits() {
    assert_eq!(digit_value('0'), Some(0));
    assert_eq!(digit_value('7'), Some(7));
    assert_eq!(digit_value('9'), Some(9));
    assert_eq!(digit_value('a'), None);
    assert_eq!(digit_value('٣'), None);
    let mut state = state(vec![file("a", 1)], 12);
    for _ in 0..25 {
        plain(&mut state, '9');
    }
    assert_eq!(state.number_prefix, Some(usize::MAX));
    let mut huge = file("huge", 1);
    huge.added = usize::MAX;
    let mut more = file("more", 1);
    more.added = 1;
    assert!(fits_limits(&[file("a", 3)]));
    assert!(!fits_limits(&[huge.clone(), more.clone()]));
    assert!(!state.set_diffs(vec![huge, more]));
    assert!(state.diffs.is_empty());
    assert_eq!(checked_open_line_count(&file("a", 3), DiffMode::Unified), Some(5));
    let mut full = file("f", 1);
    full.old_content = Some(vec!["x".to_string()]);
    full.new_content = Some(vec![]);
    full.added = usize::MAX;
    assert_eq!(checked_open_line_count(&full, DiffMode::SideBySideFull), None);
    full.collapsed = true;
    assert_eq!(checked_open_line_count(&full, DiffMode::SideBySide), Some(3));
}
