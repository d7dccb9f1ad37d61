//! The navigation state of the viewer: what is loaded, what is shown, and
//! where cursor and scroll positions stand.
//!
//! Every operation is a function of the state and its argument alone. The
//! state that matters is modelled by [`AppView`]; the file tree and the list
//! of shown files are derived from it and rebuilt whenever it changes.

use vstd::prelude::*;
use crate::cache::LineCache;
use crate::commits::Commit;
use crate::diff::{FileDiff, FileDiffView, file_refs_view, files_view};
use crate::file_tree::{
    TreeNode, TreeNodeView, build_file_tree, is_hidden_file, positions_view, spec_file_tree,
    spec_flatten, spec_is_hidden_file, spec_visible_indices, tree_view, visible_nodes,
};
use crate::index::{
    DiffMode, calculate_total_lines, clamp_max_scroll, rows_before, spec_clamp_max_scroll,
    spec_file_at, spec_next_file, spec_prev_file, spec_total_lines,
};
use crate::limits::{
    ascending, fits, fits_limits, lemma_open_totals, lemma_picked_rows_within, open_files,
    pick_files,
};
use crate::nav::{
    content_height, cursor_in_view, least, sidebar_height, spec_content_height,
    spec_move_cursor, spec_scroll_content, spec_scroll_into_view, spec_scroll_window,
    spec_set_cursor, spec_sidebar_height,
};
use crate::path_map::{CollapseMap, PathMap, is_expanded, spec_toggle};
use crate::text::str_equal;
use crate::view::{FocusArea, ViewMode};
use crate::worktree::Worktree;

verus! {

/// Positions of the files among the first `n` that are shown: all of them
/// where hidden files are shown, else those whose path is not hidden.
pub open spec fn shown_positions(files: Seq<FileDiffView>, show_hidden: bool, n: int) -> Seq<int>
    decreases n,
{
    if n <= 0 || n > files.len() {
        Seq::empty()
    } else if show_hidden || !spec_is_hidden_file(files[n - 1].path) {
        shown_positions(files, show_hidden, n - 1).push(n - 1)
    } else {
        shown_positions(files, show_hidden, n - 1)
    }
}

/// The positions of the shown files ascend and lie among the files.
pub proof fn lemma_shown_positions(files: Seq<FileDiffView>, show_hidden: bool, n: int)
    requires
        0 <= n <= files.len(),
    ensures
        ascending(shown_positions(files, show_hidden, n), n),
        shown_positions(files, show_hidden, n).len() <= n,
    decreases n,
{
    if n > 0 {
        lemma_shown_positions(files, show_hidden, n - 1);
    }
}

/// Position of the first entry from `k` on that is `target`; the length
/// where there is none.
pub open spec fn position_of(positions: Seq<int>, target: int, k: int) -> int
    decreases positions.len() - k,
{
    if k < 0 || k >= positions.len() || positions[k] == target {
        k
    } else {
        position_of(positions, target, k + 1)
    }
}

/// Position of the first node from `k` on whose path is `path`; the length
/// where there is none.
pub open spec fn position_of_path(nodes: Seq<TreeNodeView>, path: Seq<char>, k: int) -> int
    decreases nodes.len() - k,
{
    if k < 0 || k >= nodes.len() || nodes[k].path == path {
        k
    } else {
        position_of_path(nodes, path, k + 1)
    }
}

/// The first `n` files are all collapsed.
pub open spec fn all_collapsed(files: Seq<FileDiffView>, n: int) -> bool {
    forall|i: int| 0 <= i < n ==> (#[trigger] files[i]).collapsed
}

/// The state of the viewer as a mathematical value.
pub struct AppView {
    pub width: nat,
    pub height: nat,
    pub repo_path: Seq<char>,
    pub worktrees: Seq<Worktree>,
    pub current_worktree: nat,
    pub commits: Seq<Commit>,
    pub files: Seq<FileDiffView>,
    pub states: Map<Seq<char>, bool>,
    pub view_mode: ViewMode,
    pub diff_mode: DiffMode,
    pub focus: FocusArea,
    pub content_scroll: nat,
    pub sidebar_scroll: nat,
    pub file_cursor: nat,
    pub popup_cursor: nat,
    pub show_hidden: bool,
    pub context_lines: nat,
    pub filter_input: Seq<char>,
    pub number_prefix: Option<nat>,
}

impl AppView {
    /// The file tree.
    pub open spec fn tree(self) -> Seq<TreeNodeView> {
        spec_file_tree(self.files, self.states)
    }

    /// The rows of the file list.
    pub open spec fn flat(self) -> Seq<TreeNodeView> {
        spec_flatten(self.tree())
    }

    /// Positions in the diff set of the files that are shown.
    pub open spec fn visible(self) -> Seq<int> {
        shown_positions(self.files, self.show_hidden, self.files.len() as int)
    }

    /// The files that are shown.
    pub open spec fn shown(self) -> Seq<FileDiffView> {
        pick_files(self.files, self.visible())
    }

    /// Rows of the content.
    pub open spec fn total_rows(self) -> nat {
        spec_total_lines(self.shown(), self.diff_mode)
    }

    /// The largest content scroll.
    pub open spec fn max_scroll(self) -> nat {
        spec_clamp_max_scroll(self.total_rows(), spec_content_height(self.height))
    }

    /// Rows of the file list that fit on the screen.
    pub open spec fn sidebar_rows(self) -> nat {
        spec_sidebar_height(self.height)
    }

    /// The cursor is on a row of the file list and in view, and the
    /// content is not scrolled past its last screenful.
    pub open spec fn inv(self) -> bool {
        &&& cursor_in_view(self.file_cursor, self.sidebar_scroll, self.flat().len(), self.sidebar_rows())
        &&& self.content_scroll <= self.max_scroll()
    }

    /// The content scroll held within its largest value.
    pub open spec fn clamp_content(self) -> AppView {
        AppView { content_scroll: least(self.content_scroll, self.max_scroll()), ..self }
    }

    /// The cursor put on row `index` of the file list.
    pub open spec fn set_sidebar_cursor(self, index: nat) -> AppView {
        let placed = spec_set_cursor(
            index,
            self.sidebar_scroll,
            self.flat().len(),
            self.sidebar_rows(),
        );
        AppView { file_cursor: placed.0, sidebar_scroll: placed.1, ..self }
    }

    /// The cursor moved by `amount` rows of the file list.
    pub open spec fn move_sidebar_cursor(self, amount: nat, forward: bool) -> AppView {
        let placed = spec_move_cursor(
            self.file_cursor,
            self.sidebar_scroll,
            amount,
            forward,
            self.flat().len(),
            self.sidebar_rows(),
        );
        AppView { file_cursor: placed.0, sidebar_scroll: placed.1, ..self }
    }

    /// The file list scrolled by `amount` rows.
    pub open spec fn scroll_sidebar(self, amount: nat, forward: bool) -> AppView {
        AppView {
            sidebar_scroll: spec_scroll_window(
                self.file_cursor,
                self.sidebar_scroll,
                amount,
                forward,
                self.flat().len(),
                self.sidebar_rows(),
            ),
            ..self
        }
    }

    /// The content scrolled by `amount` rows.
    pub open spec fn scroll_content(self, amount: nat, forward: bool) -> AppView {
        AppView {
            content_scroll: spec_scroll_content(
                self.content_scroll,
                amount,
                forward,
                self.max_scroll(),
            ),
            ..self
        }
    }

    /// The content scrolled to the start of the next file, as far as the
    /// content can scroll.
    pub open spec fn next_file(self) -> AppView {
        AppView {
            content_scroll: least(
                spec_next_file(self.shown(), self.diff_mode, self.content_scroll),
                self.max_scroll(),
            ),
            ..self
        }
    }

    /// The content scrolled to the start of the previous file.
    pub open spec fn prev_file(self) -> AppView {
        AppView {
            content_scroll: spec_prev_file(self.shown(), self.diff_mode, self.content_scroll),
            ..self
        }
    }

    /// `next_file`, `count` times.
    pub open spec fn next_files(self, count: nat) -> AppView
        decreases count,
    {
        if count == 0 {
            self
        } else {
            self.next_file().next_files((count - 1) as nat)
        }
    }

    /// `prev_file`, `count` times.
    pub open spec fn prev_files(self, count: nat) -> AppView
        decreases count,
    {
        if count == 0 {
            self
        } else {
            self.prev_file().prev_files((count - 1) as nat)
        }
    }

    /// Position in the diff set of the file at the top of the content.
    pub open spec fn current_file(self) -> Option<int> {
        match spec_file_at(self.shown(), self.diff_mode, self.content_scroll) {
            Some(k) => Some(self.visible()[k]),
            None => None,
        }
    }

    /// The cursor put back on the row of the node with path `path`: on the
    /// first such row, or, where no row has that path, on the row where the
    /// cursor was or the last row.
    pub open spec fn restore_sidebar_cursor(self, path: Seq<char>) -> AppView {
        let flat = self.flat();
        if flat.len() == 0 {
            AppView { file_cursor: 0, sidebar_scroll: 0, ..self }
        } else {
            let at = position_of_path(flat, path, 0);
            let cursor = if at < flat.len() {
                at as nat
            } else {
                least(self.file_cursor, (flat.len() - 1) as nat)
            };
            AppView {
                file_cursor: cursor,
                sidebar_scroll: spec_scroll_into_view(
                    cursor,
                    self.sidebar_scroll,
                    flat.len(),
                    self.sidebar_rows(),
                ),
                ..self
            }
        }
    }

    /// The folder `path` closed where it was open and opened where it was
    /// closed, and the cursor put back on its row.
    pub open spec fn toggle_folder(self, path: Seq<char>) -> AppView {
        AppView { states: spec_toggle(self.states, path), ..self }.restore_sidebar_cursor(path)
    }

    /// What a toggle does to the node under the cursor: a folder is closed
    /// or opened, a file is collapsed or its rows shown.
    pub open spec fn toggle_sidebar_node(self) -> AppView {
        let flat = self.flat();
        if self.file_cursor >= flat.len() {
            self
        } else {
            let node = flat[self.file_cursor as int];
            if node.is_folder {
                self.toggle_folder(node.path)
            } else {
                match node.diff_index {
                    Some(i) => if i < self.files.len() {
                        self.toggle_file(i as int)
                    } else {
                        self
                    },
                    None => self,
                }
            }
        }
    }

    /// What selecting the node under the cursor does: a closed folder is
    /// opened, and the content scrolls to a file.
    pub open spec fn jump_to_sidebar_selection(self) -> AppView {
        let flat = self.flat();
        if self.file_cursor >= flat.len() {
            self
        } else {
            let node = flat[self.file_cursor as int];
            if node.is_folder {
                if is_expanded(self.states, node.path) {
                    self
                } else {
                    AppView {
                        states: self.states.insert(node.path, true),
                        ..self
                    }.restore_sidebar_cursor(node.path)
                }
            } else {
                match node.diff_index {
                    Some(i) => self.scroll_to_diff_index(i as int),
                    None => self,
                }
            }
        }
    }

    /// What a click on screen row `row` of the sidebar does: the cursor goes
    /// to the node on that row; a folder is closed or opened, and the
    /// content scrolls to a file. A click outside the rows of the file list
    /// does nothing.
    pub open spec fn handle_sidebar_click(self, row: nat) -> AppView {
        let flat = self.flat();
        let index = self.sidebar_scroll + row - 2;
        if row < 2 || row >= 2 + self.sidebar_rows() || index >= flat.len() {
            self
        } else {
            let node = flat[index];
            let placed = self.set_sidebar_cursor(index as nat);
            if node.is_folder {
                placed.toggle_folder(node.path)
            } else {
                match node.diff_index {
                    Some(i) => placed.scroll_to_diff_index(i as int),
                    None => placed,
                }
            }
        }
    }

    /// The file at the top of the content collapsed, or its rows shown
    /// again.
    pub open spec fn toggle_current_file(self) -> AppView {
        match self.current_file() {
            Some(i) => self.toggle_file(i),
            None => self,
        }
    }

    /// All files collapsed, or, where all were collapsed, all shown.
    pub open spec fn toggle_all_files(self) -> AppView {
        let collapse = !all_collapsed(self.files, self.files.len() as int);
        AppView {
            files: self.files.map_values(|f: FileDiffView| FileDiffView { collapsed: collapse, ..f }),
            ..self
        }.clamp_content()
    }

    /// The next layout: two columns, one column, full file, and again.
    pub open spec fn cycle_diff_mode(self) -> AppView {
        AppView {
            diff_mode: match self.diff_mode {
                DiffMode::SideBySide => DiffMode::Unified,
                DiffMode::Unified => DiffMode::SideBySideFull,
                DiffMode::SideBySideFull => DiffMode::SideBySide,
            },
            ..self
        }.clamp_content()
    }

    /// Hidden files shown, or hidden again.
    pub open spec fn toggle_hidden(self) -> AppView {
        AppView { show_hidden: !self.show_hidden, ..self }.clamp_content()
    }

    /// The screen resized.
    pub open spec fn resize(self, width: nat, height: nat) -> AppView {
        AppView { width: width, height: height, ..self }.set_sidebar_cursor(
            self.file_cursor,
        ).clamp_content()
    }

    /// A diff set loaded: the cursor follows the node it was on by that
    /// node's path, and stays on its row where the path is gone.
    pub open spec fn set_files(self, files: Seq<FileDiffView>) -> AppView {
        let loaded = AppView { files: files, ..self };
        if self.file_cursor < self.flat().len() {
            loaded.restore_sidebar_cursor(
                self.flat()[self.file_cursor as int].path,
            ).clamp_content()
        } else {
            loaded.set_sidebar_cursor(self.file_cursor).clamp_content()
        }
    }

    /// File `index` collapsed, or its rows shown again.
    pub open spec fn toggle_file(self, index: int) -> AppView {
        AppView {
            files: self.files.update(
                index,
                FileDiffView { collapsed: !self.files[index].collapsed, ..self.files[index] },
            ),
            ..self
        }.clamp_content()
    }

    /// The content scrolled to the start of file `diff_index`, as far as
    /// the content can scroll; unchanged where that file is not shown.
    pub open spec fn scroll_to_diff_index(self, diff_index: int) -> AppView {
        let k = position_of(self.visible(), diff_index, 0);
        if k < self.visible().len() {
            AppView {
                content_scroll: least(
                    rows_before(self.shown(), self.diff_mode, k),
                    self.max_scroll(),
                ),
                ..self
            }
        } else {
            self
        }
    }
}

/// The state of the viewer.
pub struct AppState {
    pub width: u16,
    pub height: u16,
    pub repo_path: String,
    pub worktrees: Vec<Worktree>,
    pub current_worktree: usize,
    pub commits: Vec<Commit>,
    pub diffs: Vec<FileDiff>,
    /// Positions in `diffs` of the files that are shown.
    pub visible_diffs: Vec<usize>,
    pub file_tree: Vec<TreeNode>,
    pub expanded_folders: CollapseMap,
    pub view_mode: ViewMode,
    pub diff_mode: DiffMode,
    pub focus: FocusArea,
    pub content_scroll: usize,
    pub sidebar_scroll: usize,
    pub file_cursor: usize,
    pub popup_cursor: usize,
    pub show_hidden: bool,
    pub context_lines: u32,
    pub filter_input: String,
    pub number_prefix: Option<usize>,
}

impl View for AppState {
    type V = AppView;

    open spec fn view(&self) -> AppView {
        AppView {
            width: self.width as nat,
            height: self.height as nat,
            repo_path: self.repo_path@,
            worktrees: self.worktrees@,
            current_worktree: self.current_worktree as nat,
            commits: self.commits@,
            files: files_view(self.diffs@),
            states: self.expanded_folders@,
            view_mode: self.view_mode,
            diff_mode: self.diff_mode,
            focus: self.focus,
            content_scroll: self.content_scroll as nat,
            sidebar_scroll: self.sidebar_scroll as nat,
            file_cursor: self.file_cursor as nat,
            popup_cursor: self.popup_cursor as nat,
            show_hidden: self.show_hidden,
            context_lines: self.context_lines as nat,
            filter_input: self.filter_input@,
            number_prefix: match self.number_prefix {
                Some(n) => Some(n as nat),
                None => None,
            },
        }
    }
}

impl AppState {
    /// The derived parts are those of the view, and the diff set is within
    /// the machine limits.
    pub open spec fn derived_ok(&self) -> bool {
        &&& fits(self@.files)
        &&& positions_view(self.visible_diffs@) == self@.visible()
        &&& tree_view(self.file_tree@) == self@.tree()
    }

    /// The state is consistent: its derived parts are up to date, the
    /// cursor is in view and the content scroll within its range.
    pub open spec fn wf(&self) -> bool {
        self.derived_ok() && self@.inv()
    }

    /// A state without data, showing the diff view in the two-column
    /// layout with three lines of context.
    pub fn new(repo_path: String) -> (state: AppState)
        ensures
            state.wf(),
            state@.repo_path == repo_path@,
            state@.files.len() == 0,
            state@.commits.len() == 0,
            state@.worktrees.len() == 0,
            state@.states == Map::<Seq<char>, bool>::empty(),
            state@.view_mode == ViewMode::Diff,
            state@.diff_mode == DiffMode::SideBySide,
            state@.focus == FocusArea::Content,
            state@.context_lines == 3,
            !state@.show_hidden,
            state@.number_prefix is None,
            state@.filter_input.len() == 0,
            state@.content_scroll == 0 && state@.sidebar_scroll == 0 && state@.file_cursor == 0
                && state@.popup_cursor == 0 && state@.current_worktree == 0,
            state@.width == 0 && state@.height == 0,
    {
        let state = AppState {
            width: 0,
            height: 0,
            repo_path,
            worktrees: Vec::new(),
            current_worktree: 0,
            commits: Vec::new(),
            diffs: Vec::new(),
            visible_diffs: Vec::new(),
            file_tree: Vec::new(),
            expanded_folders: PathMap::new(),
            view_mode: ViewMode::Diff,
            diff_mode: DiffMode::SideBySide,
            focus: FocusArea::Content,
            content_scroll: 0,
            sidebar_scroll: 0,
            file_cursor: 0,
            popup_cursor: 0,
            show_hidden: false,
            context_lines: 3,
            filter_input: String::new(),
            number_prefix: None,
        };
        proof {
            assert(state@.files =~= Seq::<FileDiffView>::empty());
            assert(open_files(state@.files) =~= Seq::<FileDiffView>::empty());
            assert(positions_view(state.visible_diffs@) =~= state@.visible());
            assert(tree_view(state.file_tree@) =~= state@.tree());
            assert(state@.flat() =~= Seq::<TreeNodeView>::empty());
        }
        state
    }

    /// The files that are shown.
    pub fn shown_diffs(&self) -> (shown: Vec<&FileDiff>)
        requires
            self.derived_ok(),
        ensures
            file_refs_view(shown@) == self@.shown(),
            spec_total_lines(self@.shown(), DiffMode::Unified) <= usize::MAX,
            spec_total_lines(self@.shown(), DiffMode::SideBySide) <= usize::MAX,
            spec_total_lines(self@.shown(), DiffMode::SideBySideFull) <= usize::MAX,
            forall|k: int|
                0 <= k < shown@.len() ==> crate::rows::index_bound((#[trigger] shown@[k])@)
                    <= usize::MAX,
    {
        let ghost files = self@.files;
        let ghost visible = self@.visible();
        proof {
            lemma_shown_positions(files, self.show_hidden, files.len() as int);
            assert(positions_view(self.visible_diffs@).len() == self.visible_diffs@.len());
        }
        let mut shown: Vec<&FileDiff> = Vec::new();
        let mut k: usize = 0;
        while k < self.visible_diffs.len()
            invariant
                k <= self.visible_diffs@.len(),
                files == files_view(self.diffs@),
                visible == positions_view(self.visible_diffs@),
                visible.len() == self.visible_diffs@.len(),
                ascending(visible, files.len() as int),
                shown@.len() == k,
                forall|q: int| 0 <= q < k ==> *(#[trigger] shown@[q]) == self.diffs@[visible[q]],
            decreases self.visible_diffs@.len() - k,
        {
            let i = self.visible_diffs[k];
            assert(visible[k as int] == i as int);
            shown.push(&self.diffs[i]);
            k += 1;
        }
        proof {
            assert(file_refs_view(shown@) =~= pick_files(files, visible));
            lemma_picked_rows_within(files, visible, DiffMode::Unified, visible.len() as int);
            lemma_picked_rows_within(files, visible, DiffMode::SideBySide, visible.len() as int);
            lemma_picked_rows_within(files, visible, DiffMode::SideBySideFull, visible.len() as int);
            assert forall|q: int| 0 <= q < shown@.len() implies crate::rows::index_bound(
                (#[trigger] shown@[q])@,
            ) <= usize::MAX by {
                let i = visible[q];
                assert(crate::rows::index_bound(open_files(files)[i]) <= usize::MAX);
            }
        }
        shown
    }

    /// Rows of the content.
    pub fn total_rows(&self) -> (rows: usize)
        requires
            self.derived_ok(),
        ensures
            rows == self@.total_rows(),
    {
        let shown = self.shown_diffs();
        calculate_total_lines(shown.as_slice(), self.diff_mode)
    }

    /// The largest content scroll.
    pub fn max_scroll(&self) -> (max: usize)
        requires
            self.derived_ok(),
        ensures
            max == self@.max_scroll(),
    {
        clamp_max_scroll(self.total_rows(), content_height(self.height))
    }

    /// Number of rows of the file list.
    pub fn sidebar_len(&self) -> (len: usize)
        requires
            self.derived_ok(),
        ensures
            len == self@.flat().len(),
    {
        let positions = visible_nodes(self.file_tree.as_slice());
        assert(positions_view(positions@).len() == positions@.len());
        assert(self@.flat().len() == spec_visible_indices(self@.tree()).len());
        positions.len()
    }

    /// Rows of the file list that fit on the screen.
    pub fn sidebar_visible_height(&self) -> (rows: usize)
        ensures
            rows == self@.sidebar_rows(),
    {
        sidebar_height(self.height)
    }

    /// Holds the content scroll within its largest value.
    pub fn clamp_content(&mut self)
        requires
            old(self).derived_ok(),
        ensures
            final(self)@ == old(self)@.clamp_content(),
            final(self).derived_ok(),
            final(self)@.content_scroll <= final(self)@.max_scroll(),
            final(self).diffs == old(self).diffs,
            final(self).visible_diffs == old(self).visible_diffs,
            final(self).file_tree == old(self).file_tree,
    {
        let max = self.max_scroll();
        if self.content_scroll > max {
            self.content_scroll = max;
        }
    }

    /// Puts the cursor on row `index` of the file list, or on its last row.
    pub fn set_sidebar_cursor(&mut self, index: usize)
        requires
            old(self).derived_ok(),
        ensures
            final(self)@ == old(self)@.set_sidebar_cursor(index as nat),
            final(self).derived_ok(),
            cursor_in_view(
                final(self)@.file_cursor,
                final(self)@.sidebar_scroll,
                final(self)@.flat().len(),
                final(self)@.sidebar_rows(),
            ),
            final(self).diffs == old(self).diffs,
            final(self).visible_diffs == old(self).visible_diffs,
            final(self).file_tree == old(self).file_tree,
    {
        let total = self.sidebar_len();
        let visible = self.sidebar_visible_height();
        let placed = crate::nav::set_cursor(index, self.sidebar_scroll, total, visible);
        self.file_cursor = placed.0;
        self.sidebar_scroll = placed.1;
    }

    /// Moves the cursor by `amount` rows of the file list.
    pub fn move_sidebar_cursor(&mut self, amount: usize, forward: bool)
        requires
            old(self).wf(),
        ensures
            final(self)@ == old(self)@.move_sidebar_cursor(amount as nat, forward),
            final(self).wf(),
    {
        let total = self.sidebar_len();
        let visible = self.sidebar_visible_height();
        let placed = crate::nav::move_cursor(
            self.file_cursor,
            self.sidebar_scroll,
            amount,
            forward,
            total,
            visible,
        );
        self.file_cursor = placed.0;
        self.sidebar_scroll = placed.1;
    }

    /// Scrolls the file list by `amount` rows; the cursor stays in view.
    pub fn scroll_sidebar(&mut self, amount: usize, forward: bool)
        requires
            old(self).wf(),
        ensures
            final(self)@ == old(self)@.scroll_sidebar(amount as nat, forward),
            final(self).wf(),
    {
        let total = self.sidebar_len();
        let visible = self.sidebar_visible_height();
        self.sidebar_scroll = crate::nav::scroll_window(
            self.file_cursor,
            self.sidebar_scroll,
            amount,
            forward,
            total,
            visible,
        );
    }

    /// Scrolls the content by `amount` rows.
    pub fn scroll_content(&mut self, amount: usize, forward: bool)
        requires
            old(self).wf(),
        ensures
            final(self)@ == old(self)@.scroll_content(amount as nat, forward),
            final(self).wf(),
    {
        let max = self.max_scroll();
        self.content_scroll = crate::nav::scroll_content(self.content_scroll, amount, forward, max);
    }

    /// Scrolls the content to the start of the next file.
    pub fn next_file(&mut self)
        requires
            old(self).wf(),
        ensures
            final(self)@ == old(self)@.next_file(),
            final(self).wf(),
    {
        let max = self.max_scroll();
        let shown = self.shown_diffs();
        let target = crate::index::next_file(shown.as_slice(), self.diff_mode, self.content_scroll);
        self.content_scroll = if target <= max {
            target
        } else {
            max
        };
    }

    /// Scrolls the content to the start of the previous file.
    pub fn prev_file(&mut self)
        requires
            old(self).wf(),
        ensures
            final(self)@ == old(self)@.prev_file(),
            final(self).wf(),
    {
        let shown = self.shown_diffs();
        let target = crate::index::prev_file(shown.as_slice(), self.diff_mode, self.content_scroll);
        self.content_scroll = target;
    }

    /// Position in the diff set of the file at the top of the content.
    pub fn current_file_index(&self) -> (index: Option<usize>)
        requires
            self.wf(),
        ensures
            match index {
                Some(i) => self@.current_file() == Some(i as int) && i < self.diffs@.len(),
                None => self@.current_file() is None,
            },
    {
        let shown = self.shown_diffs();
        proof {
            lemma_shown_positions(self@.files, self.show_hidden, self@.files.len() as int);
            assert(positions_view(self.visible_diffs@).len() == self.visible_diffs@.len());
        }
        match crate::index::file_at(shown.as_slice(), self.diff_mode, self.content_scroll) {
            Some(k) => {
                let i = self.visible_diffs[k];
                assert(positions_view(self.visible_diffs@)[k as int] == i as int);
                Some(i)
            },
            None => None,
        }
    }

    /// Path of the file at the top of the content.
    pub fn get_current_file(&self) -> (path: Option<String>)
        requires
            self.wf(),
        ensures
            match path {
                Some(p) => self@.current_file() is Some && p@ == self@.files[self@.current_file()->0].path,
                None => self@.current_file() is None,
            },
    {
        match self.current_file_index() {
            Some(i) => Some(self.diffs[i].path.clone()),
            None => None,
        }
    }

    /// Collapses file `index`, or shows its rows again.
    pub fn toggle_file(&mut self, index: usize)
        requires
            old(self).wf(),
            index < old(self).diffs@.len(),
        ensures
            final(self)@ == old(self)@.toggle_file(index as int),
            final(self).wf(),
    {
        let ghost before = self@;
        let collapsed = self.diffs[index].collapsed;
        self.diffs[index].collapsed = !collapsed;
        proof {
            let after = self@;
            assert(after.files =~= before.files.update(
                index as int,
                FileDiffView { collapsed: !collapsed, ..before.files[index as int] },
            ));
            assert(open_files(after.files) =~= open_files(before.files));
            crate::file_tree::lemma_tree_same_shape(
                after.files,
                before.files,
                before.files.len() as int,
                before.states,
            );
            lemma_shown_same_paths(before.files, after.files, self.show_hidden, before.files.len() as int);
        }
        self.clamp_content();
    }
    /// Recomputes which files are shown.
    pub fn update_visible_diffs(&mut self)
        requires
            fits(old(self)@.files),
            tree_view(old(self).file_tree@) == old(self)@.tree(),
        ensures
            final(self)@ == old(self)@,
            final(self).derived_ok(),
            final(self).diffs == old(self).diffs,
            final(self).file_tree == old(self).file_tree,
    {
        let ghost files = self@.files;
        let mut visible: Vec<usize> = Vec::new();
        let mut i: usize = 0;
        assert(positions_view(visible@) =~= shown_positions(files, self.show_hidden, 0));
        while i < self.diffs.len()
            invariant
                i <= self.diffs@.len(),
                files == files_view(self.diffs@),
                positions_view(visible@) == shown_positions(files, self.show_hidden, i as int),
            decreases self.diffs@.len() - i,
        {
            if self.show_hidden || !is_hidden_file(self.diffs[i].path.as_str()) {
                let ghost so_far = visible@;
                visible.push(i);
                assert(positions_view(visible@) =~= positions_view(so_far).push(i as int));
            }
            i += 1;
        }
        self.visible_diffs = visible;
    }

    /// Rebuilds the file tree.
    pub fn rebuild_tree(&mut self)
        requires
            fits(old(self)@.files),
            positions_view(old(self).visible_diffs@) == old(self)@.visible(),
        ensures
            final(self)@ == old(self)@,
            final(self).derived_ok(),
            final(self).diffs == old(self).diffs,
            final(self).visible_diffs == old(self).visible_diffs,
    {
        proof {
            lemma_open_totals(self@.files, self@.files.len() as int);
        }
        let tree = build_file_tree(self.diffs.as_slice(), &self.expanded_folders);
        self.file_tree = tree;
    }

    /// Shows hidden files, or hides them again.
    pub fn toggle_hidden(&mut self)
        requires
            old(self).wf(),
        ensures
            final(self)@ == old(self)@.toggle_hidden(),
            final(self).wf(),
    {
        self.show_hidden = !self.show_hidden;
        self.update_visible_diffs();
        self.clamp_content();
    }

    /// Switches to the next layout.
    pub fn cycle_diff_mode(&mut self)
        requires
            old(self).wf(),
        ensures
            final(self)@ == old(self)@.cycle_diff_mode(),
            final(self).wf(),
    {
        self.diff_mode = match self.diff_mode {
            DiffMode::SideBySide => DiffMode::Unified,
            DiffMode::Unified => DiffMode::SideBySideFull,
            DiffMode::SideBySideFull => DiffMode::SideBySide,
        };
        self.clamp_content();
    }

    /// Takes the size of the screen.
    pub fn resize(&mut self, width: u16, height: u16)
        requires
            old(self).wf(),
        ensures
            final(self)@ == old(self)@.resize(width as nat, height as nat),
            final(self).wf(),
    {
        self.width = width;
        self.height = height;
        let cursor = self.file_cursor;
        self.set_sidebar_cursor(cursor);
        self.clamp_content();
    }

    /// Loads a diff set. The cursor follows the node it was on by that
    /// node's path. A diff set beyond the machine limits is not taken, and
    /// the state is left without files.
    pub fn set_diffs(&mut self, diffs: Vec<FileDiff>) -> (taken: bool)
        requires
            old(self).wf(),
        ensures
            taken == fits(files_view(diffs@)),
            taken ==> final(self)@ == old(self)@.set_files(files_view(diffs@)),
            !taken ==> final(self)@ == old(self)@.set_files(Seq::empty()),
            final(self).wf(),
    {
        let taken = fits_limits(diffs.as_slice());
        let under_cursor = self.sidebar_node(self.file_cursor);
        if taken {
            self.diffs = diffs;
        } else {
            self.diffs = Vec::new();
            assert(self@.files =~= Seq::<FileDiffView>::empty());
            assert(open_files(self@.files) =~= Seq::<FileDiffView>::empty());
        }
        self.visible_diffs = Vec::new();
        proof {
            lemma_open_totals(self@.files, self@.files.len() as int);
        }
        let tree = build_file_tree(self.diffs.as_slice(), &self.expanded_folders);
        self.file_tree = tree;
        self.update_visible_diffs();
        match under_cursor {
            Some((_, path, _)) => {
                self.restore_sidebar_cursor(path.as_str());
            },
            None => {
                let cursor = self.file_cursor;
                self.set_sidebar_cursor(cursor);
            },
        }
        self.clamp_content();
        taken
    }

    /// Takes the commits of the branch.
    pub fn set_commits(&mut self, commits: Vec<Commit>)
        requires
            old(self).wf(),
        ensures
            final(self)@ == (AppView { commits: commits@, ..old(self)@ }),
            final(self).wf(),
    {
        self.commits = commits;
    }

    /// Takes the worktrees of the repository and the position of the
    /// current one.
    pub fn set_worktrees(&mut self, worktrees: Vec<Worktree>, current: usize)
        requires
            old(self).wf(),
        ensures
            final(self)@ == (AppView {
                worktrees: worktrees@,
                current_worktree: current as nat,
                ..old(self)@
            }),
            final(self).wf(),
    {
        self.worktrees = worktrees;
        self.current_worktree = current;
    }

    /// Collapses the file at the top of the content, or shows its rows
    /// again.
    pub fn toggle_current_file(&mut self)
        requires
            old(self).wf(),
        ensures
            final(self)@ == old(self)@.toggle_current_file(),
            final(self).wf(),
    {
        match self.current_file_index() {
            Some(i) => self.toggle_file(i),
            None => {},
        }
    }

    /// Collapses all files, or, where all are collapsed, shows their rows
    /// again.
    pub fn toggle_all_files(&mut self)
        requires
            old(self).wf(),
        ensures
            final(self)@ == old(self)@.toggle_all_files(),
            final(self).wf(),
    {
        let ghost before = self@;
        let mut all = true;
        let mut i: usize = 0;
        while i < self.diffs.len()
            invariant
                i <= self.diffs@.len(),
                before == self@,
                all == all_collapsed(before.files, i as int),
            decreases self.diffs@.len() - i,
        {
            assert(before.files[i as int].collapsed == self.diffs@[i as int].collapsed);
            if !self.diffs[i].collapsed {
                all = false;
            }
            i += 1;
        }
        let collapse = !all;
        let ghost target = before.files.map_values(
            |f: FileDiffView| FileDiffView { collapsed: collapse, ..f },
        );
        let mut i: usize = 0;
        while i < self.diffs.len()
            invariant
                i <= self.diffs@.len(),
                self.diffs@.len() == before.files.len(),
                target == before.files.map_values(
                    |f: FileDiffView| FileDiffView { collapsed: collapse, ..f },
                ),
                self@ == (AppView { files: self@.files, ..before }),
                self.visible_diffs == old(self).visible_diffs,
                self.file_tree == old(self).file_tree,
                forall|k: int| 0 <= k < i ==> (#[trigger] self@.files[k]) == target[k],
                forall|k: int|
                    i <= k < self.diffs@.len() ==> (#[trigger] self@.files[k]) == before.files[k],
            decreases self.diffs@.len() - i,
        {
            let ghost prev = self@.files;
            self.diffs[i].collapsed = collapse;
            proof {
                assert(self@.files =~= prev.update(
                    i as int,
                    FileDiffView { collapsed: collapse, ..prev[i as int] },
                ));
                assert(target[i as int] == (FileDiffView {
                    collapsed: collapse,
                    ..before.files[i as int]
                }));
            }
            i += 1;
        }
        proof {
            let after = self@;
            assert(after.files =~= target);
            assert(open_files(after.files) =~= open_files(before.files));
            crate::file_tree::lemma_tree_same_shape(
                after.files,
                before.files,
                before.files.len() as int,
                before.states,
            );
            lemma_shown_same_paths(before.files, after.files, self.show_hidden, before.files.len() as int);
        }
        self.clamp_content();
    }

    /// Scrolls the content to the start of file `diff_index`; does nothing
    /// where that file is not shown.
    pub fn scroll_to_diff_index(&mut self, diff_index: usize)
        requires
            old(self).wf(),
        ensures
            final(self)@ == old(self)@.scroll_to_diff_index(diff_index as int),
            final(self).wf(),
    {
        let ghost visible = self@.visible();
        assert(positions_view(self.visible_diffs@).len() == self.visible_diffs@.len());
        let mut k: usize = 0;
        while k < self.visible_diffs.len() && self.visible_diffs[k] != diff_index
            invariant
                k <= self.visible_diffs@.len(),
                visible == positions_view(self.visible_diffs@),
                position_of(visible, diff_index as int, k as int) == position_of(
                    visible,
                    diff_index as int,
                    0,
                ),
            decreases self.visible_diffs@.len() - k,
        {
            assert(visible[k as int] == self.visible_diffs@[k as int]);
            k += 1;
        }
        if k < self.visible_diffs.len() {
            assert(visible[k as int] == self.visible_diffs@[k as int]);
            let max = self.max_scroll();
            let shown = self.shown_diffs();
            let start = crate::index::scroll_offset_of(shown.as_slice(), self.diff_mode, k);
            self.content_scroll = if start <= max {
                start
            } else {
                max
            };
        }
    }

    /// Puts the cursor back on the row of the node with path `path`.
    pub fn restore_sidebar_cursor(&mut self, path: &str)
        requires
            old(self).derived_ok(),
        ensures
            final(self)@ == old(self)@.restore_sidebar_cursor(path@),
            final(self).derived_ok(),
            cursor_in_view(
                final(self)@.file_cursor,
                final(self)@.sidebar_scroll,
                final(self)@.flat().len(),
                final(self)@.sidebar_rows(),
            ),
            final(self).diffs == old(self).diffs,
    {
        let ghost flat = self@.flat();
        let at;
        let total;
        {
            let nodes = crate::file_tree::flatten_tree(self.file_tree.as_slice());
            total = nodes.len();
            let mut k: usize = 0;
            assert(crate::file_tree::node_refs_view(nodes@).len() == nodes@.len());
            while k < nodes.len() && !str_equal(nodes[k].path.as_str(), path)
                invariant
                    k <= nodes@.len(),
                    flat == crate::file_tree::node_refs_view(nodes@),
                    position_of_path(flat, path@, k as int) == position_of_path(flat, path@, 0),
                decreases nodes@.len() - k,
            {
                assert(flat[k as int] == nodes@[k as int]@);
                k += 1;
            }
            if k < nodes.len() {
                assert(flat[k as int] == nodes@[k as int]@);
            }
            at = k;
        }
        if total == 0 {
            self.file_cursor = 0;
            self.sidebar_scroll = 0;
            return;
        }
        let cursor = if at < total {
            at
        } else if self.file_cursor <= total - 1 {
            self.file_cursor
        } else {
            total - 1
        };
        let visible = self.sidebar_visible_height();
        self.file_cursor = cursor;
        self.sidebar_scroll = crate::nav::scroll_into_view(cursor, self.sidebar_scroll, total, visible);
    }

    /// Closes the folder `path` where it is open and opens it where it is
    /// closed, and puts the cursor back on its row.
    pub fn toggle_folder(&mut self, path: &str)
        requires
            old(self).wf(),
        ensures
            final(self)@ == old(self)@.toggle_folder(path@),
            final(self).wf(),
    {
        self.expanded_folders.toggle(path);
        self.rebuild_tree();
        self.restore_sidebar_cursor(path);
    }

    /// The node on row `index` of the file list: whether it is a folder,
    /// its path, and the position of its file in the diff set.
    pub fn sidebar_node(&self, index: usize) -> (node: Option<(bool, String, Option<usize>)>)
        requires
            self.derived_ok(),
        ensures
            match node {
                Some((is_folder, path, diff_index)) => {
                    &&& index < self@.flat().len()
                    &&& is_folder == self@.flat()[index as int].is_folder
                    &&& path@ == self@.flat()[index as int].path
                    &&& match diff_index {
                        Some(i) => self@.flat()[index as int].diff_index == Some(i as nat),
                        None => self@.flat()[index as int].diff_index is None,
                    }
                },
                None => index >= self@.flat().len(),
            },
    {
        let nodes = crate::file_tree::flatten_tree(self.file_tree.as_slice());
        assert(crate::file_tree::node_refs_view(nodes@).len() == nodes@.len());
        if index < nodes.len() {
            let node = nodes[index];
            assert(self@.flat()[index as int] == nodes@[index as int]@);
            Some((node.is_folder, node.path.clone(), node.diff_index))
        } else {
            None
        }
    }

    /// Toggles the node under the cursor: a folder is closed or opened, a
    /// file is collapsed or its rows shown.
    pub fn toggle_sidebar_node(&mut self)
        requires
            old(self).wf(),
        ensures
            final(self)@ == old(self)@.toggle_sidebar_node(),
            final(self).wf(),
    {
        match self.sidebar_node(self.file_cursor) {
            Some((is_folder, path, diff_index)) => {
                if is_folder {
                    self.toggle_folder(path.as_str());
                } else {
                    match diff_index {
                        Some(i) => {
                            if i < self.diffs.len() {
                                self.toggle_file(i);
                            }
                        },
                        None => {},
                    }
                }
            },
            None => {},
        }
    }

    /// Selects the node under the cursor: a closed folder is opened, and
    /// the content scrolls to a file.
    pub fn jump_to_sidebar_selection(&mut self)
        requires
            old(self).wf(),
        ensures
            final(self)@ == old(self)@.jump_to_sidebar_selection(),
            final(self).wf(),
    {
        match self.sidebar_node(self.file_cursor) {
            Some((is_folder, path, diff_index)) => {
                if is_folder {
                    if !self.expanded_folders.expanded(path.as_str()) {
                        self.expanded_folders.insert(path.as_str(), true);
                        self.rebuild_tree();
                        self.restore_sidebar_cursor(path.as_str());
                    }
                } else {
                    match diff_index {
                        Some(i) => self.scroll_to_diff_index(i),
                        None => {},
                    }
                }
            },
            None => {},
        }
    }

    /// Handles a click on screen row `row` of the sidebar.
    pub fn handle_sidebar_click(&mut self, row: u16)
        requires
            old(self).wf(),
        ensures
            final(self)@ == old(self)@.handle_sidebar_click(row as nat),
            final(self).wf(),
    {
        let rows = self.sidebar_visible_height();
        if row < 2 || (row - 2) as usize >= rows {
            return;
        }
        let index = match self.sidebar_scroll.checked_add((row - 2) as usize) {
            Some(i) => i,
            None => {
                let nodes = self.file_tree.len();
                proof {
                    let tree = self@.tree();
                    crate::file_tree::lemma_visible_upto(tree, tree.len() as int);
                    assert(tree.len() == nodes);
                    assert(self@.flat().len() == spec_visible_indices(tree).len());
                }
                return;
            },
        };
        match self.sidebar_node(index) {
            Some((is_folder, path, diff_index)) => {
                self.set_sidebar_cursor(index);
                if is_folder {
                    self.toggle_folder(path.as_str());
                } else {
                    match diff_index {
                        Some(i) => self.scroll_to_diff_index(i),
                        None => {},
                    }
                }
            },
            None => {},
        }
    }
    /// The branch of the current worktree; `HEAD` where there is no
    /// current worktree or its head is detached.
    pub fn current_branch(&self) -> (branch: &str)
        ensures
            branch@ == if self@.current_worktree < self@.worktrees.len()
                && self@.worktrees[self@.current_worktree as int].branch is Some {
                self@.worktrees[self@.current_worktree as int].branch->0@
            } else {
                "HEAD"@
            },
    {
        if self.current_worktree < self.worktrees.len() {
            match &self.worktrees[self.current_worktree].branch {
                Some(b) => b.as_str(),
                None => "HEAD",
            }
        } else {
            "HEAD"
        }
    }

    /// Number of files that are not shown because they are hidden.
    pub fn hidden_count(&self) -> (count: usize)
        requires
            self.derived_ok(),
        ensures
            count == self@.files.len() - self@.visible().len(),
    {
        proof {
            lemma_shown_positions(self@.files, self.show_hidden, self@.files.len() as int);
            assert(positions_view(self.visible_diffs@).len() == self.visible_diffs@.len());
        }
        self.diffs.len() - self.visible_diffs.len()
    }

    /// Number of commits that are selected.
    pub fn selected_commit_count(&self) -> (count: usize)
        ensures
            count == selected_upto(self@.commits, self@.commits.len() as int),
    {
        let mut count: usize = 0;
        let mut i: usize = 0;
        while i < self.commits.len()
            invariant
                i <= self.commits@.len(),
                count <= i,
                count == selected_upto(self.commits@, i as int),
            decreases self.commits@.len() - i,
        {
            if self.commits[i].selected {
                count += 1;
            }
            i += 1;
        }
        count
    }
}

/// Loads a diff set and empties the cache of tokenized lines, so that no
/// line of an earlier text is shown for a path that is used again.
pub fn load_diffs<T>(state: &mut AppState, cache: &mut LineCache<T>, diffs: Vec<FileDiff>) -> (taken:
    bool)
    requires
        old(state).wf(),
    ensures
        taken == fits(files_view(diffs@)),
        taken ==> final(state)@ == old(state)@.set_files(files_view(diffs@)),
        !taken ==> final(state)@ == old(state)@.set_files(Seq::empty()),
        final(state).wf(),
        final(cache)@ == Map::<Seq<char>, Vec<Vec<T>>>::empty(),
{
    cache.clear();
    state.set_diffs(diffs)
}

/// Number of selected commits among the first `n`.
pub open spec fn selected_upto(commits: Seq<Commit>, n: int) -> nat
    decreases n,
{
    if n <= 0 || n > commits.len() {
        0
    } else {
        selected_upto(commits, n - 1) + if commits[n - 1].selected {
            1nat
        } else {
            0nat
        }
    }
}

/// Which files are shown depends on their paths alone.
pub proof fn lemma_shown_same_paths(
    a: Seq<FileDiffView>,
    b: Seq<FileDiffView>,
    show_hidden: bool,
    n: int,
)
    requires
        crate::file_tree::same_shape(a, b),
        0 <= n <= a.len(),
    ensures
        shown_positions(a, show_hidden, n) == shown_positions(b, show_hidden, n),
    decreases n,
{
    if n > 0 {
        lemma_shown_same_paths(a, b, show_hidden, n - 1);
    }
}

} // verus!
