//! Laws of navigation: what closing and opening a folder does to the file
//! list and the cursor.

use vstd::prelude::*;
use crate::file_tree::{
    TreeNodeView, closes, hidden_at, lemma_visible_upto, spec_flatten, spec_visible_indices,
    visible_upto,
};
use crate::path_map::{is_expanded, spec_toggle};
use crate::diff::FileDiffView;
use crate::file_tree::{lemma_tree_same_shape, same_shape};
use crate::index::{DiffMode, prev_start_upto};
use crate::input::{Key, Modifiers, MouseKind};
use crate::nav::{cursor_in_view, lemma_scroll_into_view};
use crate::state::{AppView, lemma_shown_same_paths, position_of_path};
use crate::tree_laws::{
    lemma_toggle_twice_restores_tree, lemma_tree_order, lemma_tree_with_states, with_state,
    with_states,
};

verus! {

/// The shown positions among the first `m` nodes are the first of the
/// shown positions among the first `n`, for `m <= n`.
proof fn lemma_visible_prefix(nodes: Seq<TreeNodeView>, m: int, n: int)
    requires
        0 <= m <= n <= nodes.len(),
    ensures
        visible_upto(nodes, m).len() <= visible_upto(nodes, n).len(),
        forall|k: int|
            0 <= k < visible_upto(nodes, m).len() ==> #[trigger] visible_upto(nodes, n)[k]
                == visible_upto(nodes, m)[k],
    decreases n - m,
{
    if m < n {
        lemma_visible_prefix(nodes, m, n - 1);
    }
}

/// Lists of nodes that are the same before position `m`, and have the same
/// paths up to it, hide the same nodes up to it.
proof fn lemma_hidden_same(a: Seq<TreeNodeView>, b: Seq<TreeNodeView>, i: int)
    requires
        0 <= i < a.len(),
        i < b.len(),
        forall|j: int| 0 <= j < i ==> #[trigger] a[j] == b[j],
        a[i].path == b[i].path,
    ensures
        hidden_at(a, i) == hidden_at(b, i),
{
    if hidden_at(a, i) {
        let j = choose|j: int| 0 <= j < i && closes(#[trigger] a[j], a[i].path);
        assert(closes(b[j], b[i].path));
    }
    if hidden_at(b, i) {
        let j = choose|j: int| 0 <= j < i && closes(#[trigger] b[j], b[i].path);
        assert(closes(a[j], a[i].path));
    }
}

/// Lists of nodes that are the same before position `bound`, and have the
/// same path at it, show the same positions up to it.
proof fn lemma_visible_same(a: Seq<TreeNodeView>, b: Seq<TreeNodeView>, m: int, bound: int)
    requires
        0 <= m <= bound + 1,
        bound < a.len(),
        bound < b.len(),
        forall|j: int| 0 <= j < bound ==> #[trigger] a[j] == b[j],
        a[bound].path == b[bound].path,
    ensures
        visible_upto(a, m) == visible_upto(b, m),
    decreases m,
{
    if m > 0 {
        lemma_visible_same(a, b, m - 1, bound);
        lemma_hidden_same(a, b, m - 1);
    }
}

/// The first node with a path is where no earlier node has it.
proof fn lemma_position_of_path(nodes: Seq<TreeNodeView>, path: Seq<char>, k: int, at: int)
    requires
        0 <= k <= at < nodes.len(),
        forall|i: int| k <= i < at ==> (#[trigger] nodes[i]).path != path,
        nodes[at].path == path,
    ensures
        position_of_path(nodes, path, k) == at,
    decreases at - k,
{
    if k < at {
        lemma_position_of_path(nodes, path, k + 1, at);
    }
}

/// Closing or opening the folder under the cursor leaves the cursor on it,
/// and doing it twice restores the file list: the same rows with the
/// cursor on the same row, and every folder as open or closed as before.
pub proof fn lemma_toggle_folder_twice(v: AppView)
    requires
        v.file_cursor < v.flat().len(),
        v.flat()[v.file_cursor as int].is_folder,
    ensures
        ({
            let once = v.toggle_sidebar_node();
            let twice = once.toggle_sidebar_node();
            &&& once.file_cursor == v.file_cursor
            &&& once.flat()[once.file_cursor as int].path == v.flat()[v.file_cursor as int].path
            &&& twice.flat() == v.flat()
            &&& twice.file_cursor == v.file_cursor
            &&& twice.files == v.files
            &&& forall|path: Seq<char>|
                is_expanded(twice.states, path) == is_expanded(v.states, path)
        }),
{
    let n = v.files.len() as int;
    let t = v.tree();
    let vis = spec_visible_indices(t);
    let c = v.file_cursor as int;
    let idx = vis[c];
    let p = t[idx].path;
    let s1 = spec_toggle(v.states, p);
    let once = v.toggle_sidebar_node();
    let t1 = once.tree();
    let vis1 = spec_visible_indices(t1);

    lemma_visible_upto(t, t.len() as int);
    lemma_tree_order(v.files, n, v.states);
    lemma_tree_with_states(v.files, n, v.states, s1);
    lemma_tree_with_states(v.files, n, v.states, v.states);
    assert(t1 == with_states(t, s1));
    assert(t == with_states(t, v.states));
    assert(v.flat()[c] == t[idx]);

    // Every node but the folder itself is the same in both trees.
    assert forall|j: int| 0 <= j < t.len() && j != idx implies #[trigger] t1[j] == t[j] by {
        assert(t1[j] == with_state(t[j], s1));
        assert(t[j] == with_state(t[j], v.states));
        if t[j].is_folder && t[j].path == p {
            if j < idx {
                assert(!t[idx].is_folder);
            } else {
                assert(!t[j].is_folder);
            }
        }
    }
    assert(t1[idx].path == p && t1[idx].is_folder);
    // No earlier node has the folder's path.
    assert forall|j: int| 0 <= j < idx implies (#[trigger] t[j]).path != p by {
        if t[j].path == p {
            assert(!t[idx].is_folder);
        }
    }

    // The rows up to the folder are the same.
    lemma_visible_same(t1, t, idx + 1, idx);
    lemma_visible_prefix(t, idx, idx + 1);
    lemma_visible_prefix(t, idx + 1, t.len() as int);
    lemma_visible_prefix(t1, idx + 1, t1.len() as int);
    let k0 = visible_upto(t, idx).len() as int;
    assert(!hidden_at(t, idx));
    assert(visible_upto(t, idx + 1) == visible_upto(t, idx).push(idx));
    assert(vis[k0] == idx);
    assert(k0 == c) by {
        if k0 < c {
            assert(vis[k0] < vis[c]);
        } else if c < k0 {
            assert(vis[c] < vis[k0]);
        }
    }
    assert(vis1[c] == idx);
    lemma_visible_upto(t1, t1.len() as int);
    let flat1 = spec_flatten(t1);
    assert(flat1[c] == t1[idx]);
    assert forall|k: int| 0 <= k < c implies (#[trigger] flat1[k]).path != p by {
        assert(vis1[k] == vis[k]);
        assert(vis[k] < vis[c]);
        assert(flat1[k] == t1[vis1[k]]);
    }
    lemma_position_of_path(flat1, p, 0, c);
    assert(once == v.toggle_folder(p));
    assert(once.file_cursor == c);

    // The second toggle.
    let twice = once.toggle_sidebar_node();
    assert(twice == once.toggle_folder(p));
    lemma_toggle_twice_restores_tree(v.files, v.states, p);
    assert(twice.tree() == t);
    let flat = v.flat();
    assert forall|k: int| 0 <= k < c implies (#[trigger] flat[k]).path != p by {
        assert(vis[k] < vis[c]);
        assert(flat[k] == t[vis[k]]);
    }
    lemma_position_of_path(flat, p, 0, c);
    assert forall|path: Seq<char>| is_expanded(twice.states, path) == is_expanded(
        v.states,
        path,
    ) by {
        crate::path_map::lemma_toggle_twice(v.states, p, path);
    }
}

/// The start of a previous file lies at or before the row looked from.
proof fn lemma_prev_start_bound(files: Seq<FileDiffView>, mode: DiffMode, k: int, scroll: nat)
    requires
        0 <= k <= files.len(),
    ensures
        prev_start_upto(files, mode, k, scroll) <= scroll,
    decreases k,
{
    if k > 0 {
        lemma_prev_start_bound(files, mode, k - 1, scroll);
    }
}

/// Two states show the same file list and the same content: they have
/// files of the same shape, collapsed alike, and agree in what is shown,
/// in the layout, in the collapse map and in the height of the screen.
pub open spec fn same_lists(a: AppView, b: AppView) -> bool {
    &&& a.files == b.files
    &&& a.states == b.states
    &&& a.show_hidden == b.show_hidden
    &&& a.diff_mode == b.diff_mode
    &&& a.height == b.height
}

/// Holding the content scroll within its range keeps the state in order
/// where the cursor is in view.
proof fn lemma_clamp_content_keeps_inv(v: AppView)
    requires
        cursor_in_view(v.file_cursor, v.sidebar_scroll, v.flat().len(), v.sidebar_rows()),
    ensures
        v.clamp_content().inv(),
{
    assert(same_lists(v.clamp_content(), v));
}

/// Putting the cursor on a row keeps the state in order.
proof fn lemma_set_cursor_keeps_inv(v: AppView, index: nat)
    requires
        v.content_scroll <= v.max_scroll(),
    ensures
        v.set_sidebar_cursor(index).inv(),
{
    let total = v.flat().len();
    if total > 0 {
        let cursor = if index <= total - 1 {
            index
        } else {
            (total - 1) as nat
        };
        lemma_scroll_into_view(cursor, v.sidebar_scroll, total, v.sidebar_rows());
    }
    assert(same_lists(v.set_sidebar_cursor(index), v));
}

/// Putting the cursor back on a path keeps the state in order.
proof fn lemma_restore_cursor_keeps_inv(v: AppView, path: Seq<char>)
    requires
        v.content_scroll <= v.max_scroll(),
    ensures
        v.restore_sidebar_cursor(path).inv(),
{
    let flat = v.flat();
    let after = v.restore_sidebar_cursor(path);
    assert(same_lists(after, v));
    if flat.len() > 0 {
        lemma_position_bounds(flat, path, 0);
        lemma_scroll_into_view(after.file_cursor, v.sidebar_scroll, flat.len(), v.sidebar_rows());
    }
}

/// The first node with a path stands at or behind where the search starts
/// and within the list or at its end.
proof fn lemma_position_bounds(nodes: Seq<TreeNodeView>, path: Seq<char>, k: int)
    requires
        0 <= k <= nodes.len(),
    ensures
        k <= position_of_path(nodes, path, k) <= nodes.len(),
    decreases nodes.len() - k,
{
    if k < nodes.len() && nodes[k].path != path {
        lemma_position_bounds(nodes, path, k + 1);
    }
}

/// Files collapsed or shown again leave the file list as it is.
proof fn lemma_collapse_keeps_lists(v: AppView, files: Seq<FileDiffView>)
    requires
        same_shape(files, v.files),
    ensures
        (AppView { files: files, ..v }).flat() == v.flat(),
{
    lemma_tree_same_shape(files, v.files, v.files.len() as int, v.states);
}

/// Collapsing a file or showing it again keeps the state in order.
proof fn lemma_toggle_file_keeps_inv(v: AppView, index: int)
    requires
        v.inv(),
        0 <= index < v.files.len(),
    ensures
        v.toggle_file(index).inv(),
{
    let files = v.files.update(
        index,
        FileDiffView { collapsed: !v.files[index].collapsed, ..v.files[index] },
    );
    lemma_collapse_keeps_lists(v, files);
    lemma_clamp_content_keeps_inv(AppView { files: files, ..v });
}

/// Opening or closing a folder keeps the state in order.
proof fn lemma_toggle_folder_keeps_inv(v: AppView, path: Seq<char>)
    requires
        v.inv(),
    ensures
        v.toggle_folder(path).inv(),
{
    let toggled = AppView { states: spec_toggle(v.states, path), ..v };
    assert(toggled.shown() == v.shown());
    lemma_restore_cursor_keeps_inv(toggled, path);
}

/// Scrolling the content to a file keeps the state in order.
proof fn lemma_scroll_to_file_keeps_inv(v: AppView, diff_index: int)
    requires
        v.inv(),
    ensures
        v.scroll_to_diff_index(diff_index).inv(),
{
    assert(same_lists(v.scroll_to_diff_index(diff_index), v));
}

/// Toggling the node under the cursor keeps the state in order.
proof fn lemma_toggle_node_keeps_inv(v: AppView)
    requires
        v.inv(),
    ensures
        v.toggle_sidebar_node().inv(),
{
    let flat = v.flat();
    if v.file_cursor < flat.len() {
        let node = flat[v.file_cursor as int];
        if node.is_folder {
            lemma_toggle_folder_keeps_inv(v, node.path);
        } else if let Some(i) = node.diff_index {
            if i < v.files.len() {
                lemma_toggle_file_keeps_inv(v, i as int);
            }
        }
    }
}

/// Selecting the node under the cursor keeps the state in order.
proof fn lemma_jump_keeps_inv(v: AppView)
    requires
        v.inv(),
    ensures
        v.jump_to_sidebar_selection().inv(),
{
    let flat = v.flat();
    if v.file_cursor < flat.len() {
        let node = flat[v.file_cursor as int];
        if node.is_folder {
            if !is_expanded(v.states, node.path) {
                let opened = AppView { states: v.states.insert(node.path, true), ..v };
                assert(opened.shown() == v.shown());
                lemma_restore_cursor_keeps_inv(opened, node.path);
            }
        } else if let Some(i) = node.diff_index {
            lemma_scroll_to_file_keeps_inv(v, i as int);
        }
    }
}

/// A click in the sidebar keeps the state in order.
proof fn lemma_click_keeps_inv(v: AppView, row: nat)
    requires
        v.inv(),
    ensures
        v.handle_sidebar_click(row).inv(),
{
    let flat = v.flat();
    let index = v.sidebar_scroll + row - 2;
    if !(row < 2 || row >= 2 + v.sidebar_rows() || index >= flat.len()) {
        let node = flat[index];
        let placed = v.set_sidebar_cursor(index as nat);
        lemma_set_cursor_keeps_inv(v, index as nat);
        if node.is_folder {
            lemma_toggle_folder_keeps_inv(placed, node.path);
        } else if let Some(i) = node.diff_index {
            lemma_scroll_to_file_keeps_inv(placed, i as int);
        }
    }
}

/// Going to the next file, any number of times, keeps the state in order.
proof fn lemma_next_files_keep_inv(v: AppView, count: nat)
    requires
        v.inv(),
    ensures
        v.next_files(count).inv(),
    decreases count,
{
    if count > 0 {
        assert(same_lists(v.next_file(), v));
        lemma_next_files_keep_inv(v.next_file(), (count - 1) as nat);
    }
}

/// Going to the previous file, any number of times, keeps the state in
/// order.
proof fn lemma_prev_files_keep_inv(v: AppView, count: nat)
    requires
        v.inv(),
    ensures
        v.prev_files(count).inv(),
    decreases count,
{
    if count > 0 {
        lemma_prev_start_bound(v.shown(), v.diff_mode, v.shown().len() as int, v.content_scroll);
        assert(same_lists(v.prev_file(), v));
        lemma_prev_files_keep_inv(v.prev_file(), (count - 1) as nat);
    }
}

/// Scrolling the file list keeps the state in order.
proof fn lemma_scroll_sidebar_keeps_inv(v: AppView, amount: nat, forward: bool)
    requires
        v.inv(),
    ensures
        v.scroll_sidebar(amount, forward).inv(),
{
    let total = v.flat().len();
    let rows = v.sidebar_rows();
    assert(same_lists(v.scroll_sidebar(amount, forward), v));
    if total > rows && rows > 0 {
        let wanted = crate::nav::least(
            crate::nav::spec_step(v.sidebar_scroll, amount, forward),
            (total - rows) as nat,
        );
        lemma_scroll_into_view(v.file_cursor, wanted, total, rows);
    }
}

/// Scrolling the content keeps the state in order.
proof fn lemma_scroll_content_keeps_inv(v: AppView, amount: nat, forward: bool)
    requires
        v.inv(),
    ensures
        v.scroll_content(amount, forward).inv(),
{
    assert(same_lists(v.scroll_content(amount, forward), v));
}

/// A key that moves through the diff keeps the state in order.
proof fn lemma_navigate_keeps_inv(
    v: AppView,
    key: Key,
    mods: Modifiers,
    count: nat,
    had_prefix: bool,
)
    requires
        v.inv(),
    ensures
        v.navigate(key, mods, count, had_prefix) matches Some(after) ==> after.inv(),
{
    let total = v.flat().len();
    if key == Key::Char('j') || key == Key::Down {
        lemma_set_cursor_keeps_inv(v, crate::nav::spec_step(v.file_cursor, count, true));
        lemma_scroll_content_keeps_inv(v, count, true);
    } else if key == Key::Char('k') || key == Key::Up {
        lemma_set_cursor_keeps_inv(v, crate::nav::spec_step(v.file_cursor, count, false));
        lemma_scroll_content_keeps_inv(v, count, false);
    } else if key == Key::Char('d') && mods == Modifiers::Control {
        lemma_scroll_sidebar_keeps_inv(v, v.pages(count), true);
        lemma_scroll_content_keeps_inv(v, v.pages(count), true);
    } else if key == Key::Char('u') && mods == Modifiers::Control {
        lemma_scroll_sidebar_keeps_inv(v, v.pages(count), false);
        lemma_scroll_content_keeps_inv(v, v.pages(count), false);
    } else if key == Key::Char('g') {
        lemma_set_cursor_keeps_inv(v, 0);
        assert(same_lists(AppView { content_scroll: 0, ..v }, v));
    } else if key == Key::Char('G') {
        lemma_set_cursor_keeps_inv(
            v,
            if had_prefix {
                crate::nav::sub_or_zero(count, 1)
            } else {
                crate::nav::sub_or_zero(total, 1)
            },
        );
        assert(same_lists(v.go_to_bottom(count, had_prefix), v));
    } else if key == Key::Char('n') {
        lemma_next_files_keep_inv(v, count);
    } else if key == Key::Char('N') {
        lemma_prev_files_keep_inv(v, count);
    } else if key == Key::Tab {
        let after = v.navigate(key, mods, count, had_prefix)->0;
        assert(same_lists(after, v));
    }
}

/// A key that changes what is shown keeps the state in order.
proof fn lemma_change_shown_keeps_inv(v: AppView, key: Key, mods: Modifiers)
    requires
        v.inv(),
    ensures
        v.change_shown(key, mods) matches Some(after) ==> after.inv(),
{
    if key == Key::Char('u') && mods == Modifiers::Plain {
        let next = match v.diff_mode {
            DiffMode::SideBySide => DiffMode::Unified,
            DiffMode::Unified => DiffMode::SideBySideFull,
            DiffMode::SideBySideFull => DiffMode::SideBySide,
        };
        lemma_clamp_content_keeps_inv(AppView { diff_mode: next, ..v });
    } else if key == Key::Char('h') && mods == Modifiers::Plain {
        lemma_clamp_content_keeps_inv(AppView { show_hidden: !v.show_hidden, ..v });
    } else if key == Key::Char(' ') {
        lemma_toggle_node_keeps_inv(v);
        if let Some(i) = v.current_file() {
            lemma_current_file_in_range(v);
            lemma_toggle_file_keeps_inv(v, i);
        }
    } else if key == Key::Enter {
        lemma_jump_keeps_inv(v);
    } else if key == Key::Char('z') {
        let collapse = !crate::state::all_collapsed(v.files, v.files.len() as int);
        let files = v.files.map_values(|f: FileDiffView| FileDiffView { collapsed: collapse, ..f });
        lemma_collapse_keeps_lists(v, files);
        lemma_clamp_content_keeps_inv(AppView { files: files, ..v });
    }
}

/// The file at the top of the content is one of the files.
proof fn lemma_current_file_in_range(v: AppView)
    ensures
        v.current_file() matches Some(i) ==> 0 <= i < v.files.len(),
{
    if let Some(k) = crate::index::spec_file_at(v.shown(), v.diff_mode, v.content_scroll) {
        crate::index::lemma_file_at_is_owner(v.shown(), v.diff_mode, v.content_scroll);
        crate::state::lemma_shown_positions(v.files, v.show_hidden, v.files.len() as int);
        assert(crate::index::owns_row(v.shown(), v.diff_mode, k, v.content_scroll));
        assert(v.shown().len() == v.visible().len());
        assert(0 <= v.visible()[k] < v.files.len());
    }
}

/// A key in the diff view keeps the state in order.
proof fn lemma_diff_key_keeps_inv(v: AppView, key: Key, mods: Modifiers)
    requires
        v.inv(),
    ensures
        v.handle_diff_key(key, mods).0.inv(),
{
    let digit = match key {
        Key::Char(c) => crate::input::digit_of(c),
        _ => None,
    };
    if digit is Some {
        assert(same_lists(v.with_digit(digit->0), v));
    } else {
        let cleared = AppView { number_prefix: None, ..v };
        let count = v.count();
        let had_prefix = v.number_prefix is Some;
        assert(same_lists(cleared, v));
        if key == Key::Char('q') || key == Key::Esc {
        } else if key == Key::Char('x') {
            assert(same_lists(cleared.cycle_context(), v));
        } else if cleared.navigate(key, mods, count, had_prefix) is Some {
            lemma_navigate_keeps_inv(cleared, key, mods, count, had_prefix);
        } else if cleared.change_shown(key, mods) is Some {
            lemma_change_shown_keeps_inv(cleared, key, mods);
        } else if cleared.open_popup(key, mods) is Some {
            assert(same_lists(cleared.open_popup(key, mods)->0, v));
        }
    }
}

/// A key in a popup or in the list of worktrees keeps the state in order:
/// it touches neither the file list nor the content.
proof fn lemma_popup_key_keeps_inv(v: AppView, key: Key)
    requires
        v.inv(),
    ensures
        v.handle_commit_filter_key(key).0.inv(),
        v.handle_worktree_switcher_key(key).0.inv(),
        v.handle_worktree_list_key(key).0.inv(),
        v.handle_help_key(key).0.inv(),
{
    assert(same_lists(v.handle_commit_filter_key(key).0, v));
    assert(same_lists(v.handle_worktree_switcher_key(key).0, v));
    assert(same_lists(v.handle_worktree_list_key(key).0, v));
    assert(same_lists(v.handle_help_key(key).0, v));
}

/// Whatever key is pressed, the state stays in order: the cursor on a row
/// of the file list and in view, and the content scrolled no further than
/// its last screenful.
pub proof fn lemma_key_keeps_inv(v: AppView, key: Key, mods: Modifiers)
    requires
        v.inv(),
    ensures
        v.handle_key(key, mods).0.inv(),
{
    lemma_diff_key_keeps_inv(v, key, mods);
    lemma_popup_key_keeps_inv(v, key);
}

/// Whatever the mouse does, the state stays in order.
pub proof fn lemma_mouse_keeps_inv(v: AppView, kind: MouseKind, column: nat, row: nat)
    requires
        v.inv(),
    ensures
        v.handle_mouse(kind, column, row).inv(),
{
    let lines = crate::input::MOUSE_SCROLL_LINES as nat;
    match kind {
        MouseKind::LeftDown => {
            let focused = AppView { focus: crate::view::FocusArea::Sidebar, ..v };
            assert(same_lists(focused, v));
            lemma_click_keeps_inv(focused, row);
            assert(same_lists(AppView { focus: crate::view::FocusArea::Content, ..v }, v));
        },
        MouseKind::ScrollDown => {
            lemma_scroll_sidebar_keeps_inv(v, lines, true);
            lemma_scroll_content_keeps_inv(v, lines, true);
        },
        MouseKind::ScrollUp => {
            lemma_scroll_sidebar_keeps_inv(v, lines, false);
            lemma_scroll_content_keeps_inv(v, lines, false);
        },
        MouseKind::Other => {},
    }
}

/// Loading a diff set and resizing the screen leave the state in order.
pub proof fn lemma_load_and_resize_keep_inv(v: AppView, files: Seq<FileDiffView>, width: nat, height: nat)
    ensures
        v.set_files(files).inv(),
        v.resize(width, height).inv(),
{
    let loaded = AppView { files: files, ..v };
    if v.file_cursor < v.flat().len() {
        let path = v.flat()[v.file_cursor as int].path;
        let restored = loaded.restore_sidebar_cursor(path);
        if loaded.flat().len() > 0 {
            lemma_position_bounds(loaded.flat(), path, 0);
            lemma_scroll_into_view(
                restored.file_cursor,
                loaded.sidebar_scroll,
                loaded.flat().len(),
                loaded.sidebar_rows(),
            );
        }
        assert(same_lists(restored, loaded));
        lemma_clamp_content_keeps_inv(restored);
    } else {
        lemma_cursor_set_in_view(loaded, v.file_cursor);
        lemma_clamp_content_keeps_inv(loaded.set_sidebar_cursor(v.file_cursor));
    }
    let resized = AppView { width: width, height: height, ..v };
    lemma_cursor_set_in_view(resized, v.file_cursor);
    lemma_clamp_content_keeps_inv(resized.set_sidebar_cursor(v.file_cursor));
}

/// The cursor put on a row is in view.
proof fn lemma_cursor_set_in_view(v: AppView, index: nat)
    ensures
        ({
            let after = v.set_sidebar_cursor(index);
            cursor_in_view(
                after.file_cursor,
                after.sidebar_scroll,
                after.flat().len(),
                after.sidebar_rows(),
            )
        }),
{
    let total = v.flat().len();
    if total > 0 {
        let cursor = if index <= total - 1 {
            index
        } else {
            (total - 1) as nat
        };
        lemma_scroll_into_view(cursor, v.sidebar_scroll, total, v.sidebar_rows());
    }
    assert(same_lists(v.set_sidebar_cursor(index), v));
}

} // verus!
