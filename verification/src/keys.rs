//! What keys and the mouse do to the state of the viewer.

use vstd::prelude::*;
use crate::commits::Commit;
use crate::file_tree::positions_view;
use crate::filter::{matching_worktrees, spec_matching};
use crate::input::{
    Action, Key, MOUSE_SCROLL_LINES, Modifiers, MouseKind, SIDEBAR_WIDTH, digit_of, digit_value,
};
use crate::nav::{least, sub_or_zero};
use crate::state::{AppState, AppView};
use crate::text::{chars_of, substring};
use crate::view::{FocusArea, ViewMode};

verus! {

/// The commits, each selected or not as `selected` says.
pub open spec fn select_all(commits: Seq<Commit>, selected: bool) -> Seq<Commit> {
    commits.map_values(|c: Commit| Commit { selected: selected, ..c })
}

impl AppView {
    /// How often a command is to be repeated: the number typed before it,
    /// or once.
    pub open spec fn count(self) -> nat {
        match self.number_prefix {
            Some(n) => n,
            None => 1,
        }
    }

    /// The number typed so far with the digit `digit` appended, as far as
    /// `usize` reaches.
    pub open spec fn with_digit(self, digit: nat) -> AppView {
        let prefix = match self.number_prefix {
            Some(n) => n,
            None => 0,
        };
        AppView { number_prefix: Some(least(prefix * 10 + digit, usize::MAX as nat)), ..self }
    }

    /// The focused pane moved by `amount` rows: the cursor in the file
    /// list, the scroll position in the content.
    pub open spec fn move_focused(self, amount: nat, forward: bool) -> AppView {
        if self.focus == FocusArea::Sidebar {
            self.move_sidebar_cursor(amount, forward)
        } else {
            self.scroll_content(amount, forward)
        }
    }

    /// The focused pane scrolled by `amount` rows.
    pub open spec fn scroll_focused(self, amount: nat, forward: bool) -> AppView {
        if self.focus == FocusArea::Sidebar {
            self.scroll_sidebar(amount, forward)
        } else {
            self.scroll_content(amount, forward)
        }
    }

    /// Rows of half a screen, `count` times, as far as `usize` reaches.
    pub open spec fn pages(self, count: nat) -> nat {
        least((self.height / 2) * count, usize::MAX as nat)
    }

    /// The focused pane at its first row.
    pub open spec fn go_to_top(self) -> AppView {
        if self.focus == FocusArea::Sidebar {
            self.set_sidebar_cursor(0)
        } else {
            AppView { content_scroll: 0, ..self }
        }
    }

    /// The focused pane at row `count` where a number was typed, else at
    /// its last row; the content as far as it can scroll.
    pub open spec fn go_to_bottom(self, count: nat, had_prefix: bool) -> AppView {
        if self.focus == FocusArea::Sidebar {
            self.set_sidebar_cursor(
                if had_prefix {
                    sub_or_zero(count, 1)
                } else {
                    sub_or_zero(self.flat().len(), 1)
                },
            )
        } else if had_prefix {
            AppView { content_scroll: least(sub_or_zero(count, 1), self.max_scroll()), ..self }
        } else {
            AppView { content_scroll: self.max_scroll(), ..self }
        }
    }

    /// The lines of context cycled: three, one, none, and again.
    pub open spec fn cycle_context(self) -> AppView {
        AppView {
            context_lines: if self.context_lines == 3 {
                1
            } else if self.context_lines == 1 {
                0
            } else {
                3
            },
            ..self
        }
    }

    /// What a key that moves through the diff does; `None` for any other
    /// key.
    pub open spec fn navigate(self, key: Key, mods: Modifiers, count: nat, had_prefix: bool) -> Option<
        AppView,
    > {
        if key == Key::Char('j') || key == Key::Down {
            Some(self.move_focused(count, true))
        } else if key == Key::Char('k') || key == Key::Up {
            Some(self.move_focused(count, false))
        } else if key == Key::Char('d') && mods == Modifiers::Control {
            Some(self.scroll_focused(self.pages(count), true))
        } else if key == Key::Char('u') && mods == Modifiers::Control {
            Some(self.scroll_focused(self.pages(count), false))
        } else if key == Key::Char('g') {
            Some(self.go_to_top())
        } else if key == Key::Char('G') {
            Some(self.go_to_bottom(count, had_prefix))
        } else if key == Key::Char('n') {
            Some(self.next_files(count))
        } else if key == Key::Char('N') {
            Some(self.prev_files(count))
        } else if key == Key::Tab {
            Some(
                AppView {
                    focus: if self.focus == FocusArea::Sidebar {
                        FocusArea::Content
                    } else {
                        FocusArea::Sidebar
                    },
                    ..self
                },
            )
        } else {
            None
        }
    }

    /// What a key that changes what is shown does; `None` for any other
    /// key.
    pub open spec fn change_shown(self, key: Key, mods: Modifiers) -> Option<AppView> {
        let sidebar = self.focus == FocusArea::Sidebar;
        if key == Key::Char('u') && mods == Modifiers::Plain {
            Some(self.cycle_diff_mode())
        } else if key == Key::Char('h') && mods == Modifiers::Plain {
            Some(self.toggle_hidden())
        } else if key == Key::Char(' ') {
            Some(
                if sidebar {
                    self.toggle_sidebar_node()
                } else {
                    self.toggle_current_file()
                },
            )
        } else if key == Key::Enter {
            Some(
                if sidebar {
                    self.jump_to_sidebar_selection()
                } else {
                    self
                },
            )
        } else if key == Key::Char('z') {
            Some(self.toggle_all_files())
        } else {
            None
        }
    }

    /// What a key that opens a popup or another view does; `None` for any
    /// other key.
    pub open spec fn open_popup(self, key: Key, mods: Modifiers) -> Option<AppView> {
        if key == Key::Char('c') {
            Some(AppView { view_mode: ViewMode::CommitFilter, popup_cursor: 0, ..self })
        } else if key == Key::Char('w') && mods == Modifiers::Plain {
            Some(
                AppView {
                    view_mode: ViewMode::WorktreeSwitcher,
                    popup_cursor: 0,
                    filter_input: Seq::empty(),
                    ..self
                },
            )
        } else if key == Key::Char('W') {
            Some(
                AppView {
                    view_mode: ViewMode::WorktreeList,
                    popup_cursor: self.current_worktree,
                    ..self
                },
            )
        } else if key == Key::Char('?') {
            Some(AppView { view_mode: ViewMode::Help, ..self })
        } else {
            None
        }
    }

    /// What a key does in the diff view. A digit extends the number typed;
    /// any other key uses that number up. `q` and escape quit, `x` cycles
    /// the lines of context and asks for the diff set anew.
    pub open spec fn handle_diff_key(self, key: Key, mods: Modifiers) -> (AppView, Action) {
        let digit = match key {
            Key::Char(c) => digit_of(c),
            _ => None,
        };
        if digit is Some {
            (self.with_digit(digit->0), Action::Continue)
        } else {
            let count = self.count();
            let had_prefix = self.number_prefix is Some;
            let v = AppView { number_prefix: None, ..self };
            if key == Key::Char('q') || key == Key::Esc {
                (v, Action::Quit)
            } else if key == Key::Char('x') {
                (v.cycle_context(), Action::ReloadDiffs)
            } else if v.navigate(key, mods, count, had_prefix) is Some {
                (v.navigate(key, mods, count, had_prefix)->0, Action::Continue)
            } else if v.change_shown(key, mods) is Some {
                (v.change_shown(key, mods)->0, Action::Continue)
            } else if v.open_popup(key, mods) is Some {
                (v.open_popup(key, mods)->0, Action::Continue)
            } else {
                (v, Action::Continue)
            }
        }
    }

    /// The popup cursor one row down in a list of `len` rows; it stays on
    /// the last row.
    pub open spec fn popup_down(self, len: nat) -> AppView {
        if self.popup_cursor < sub_or_zero(len, 1) {
            AppView { popup_cursor: self.popup_cursor + 1, ..self }
        } else {
            self
        }
    }

    /// The popup cursor one row up; it stays on the first row.
    pub open spec fn popup_up(self) -> AppView {
        AppView { popup_cursor: sub_or_zero(self.popup_cursor, 1), ..self }
    }

    /// What a key does in the commit filter.
    pub open spec fn handle_commit_filter_key(self, key: Key) -> (AppView, Action) {
        if key == Key::Esc {
            (AppView { view_mode: ViewMode::Diff, ..self }, Action::Continue)
        } else if key == Key::Enter {
            (AppView { view_mode: ViewMode::Diff, ..self }, Action::ReloadDiffs)
        } else if key == Key::Char('j') || key == Key::Down {
            (self.popup_down(self.commits.len()), Action::Continue)
        } else if key == Key::Char('k') || key == Key::Up {
            (self.popup_up(), Action::Continue)
        } else if key == Key::Char(' ') {
            if self.popup_cursor < self.commits.len() {
                let commit = self.commits[self.popup_cursor as int];
                (
                    AppView {
                        commits: self.commits.update(
                            self.popup_cursor as int,
                            Commit { selected: !commit.selected, ..commit },
                        ),
                        ..self
                    },
                    Action::Continue,
                )
            } else {
                (self, Action::Continue)
            }
        } else if key == Key::Char('a') {
            (AppView { commits: select_all(self.commits, true), ..self }, Action::Continue)
        } else if key == Key::Char('n') {
            (AppView { commits: select_all(self.commits, false), ..self }, Action::Continue)
        } else {
            (self, Action::Continue)
        }
    }

    /// The worktree at `position` made the one to look at.
    pub open spec fn switch_worktree(self, position: int) -> AppView {
        AppView {
            repo_path: self.worktrees[position].path@,
            current_worktree: position as nat,
            ..self
        }
    }

    /// What a key does in the worktree switcher.
    pub open spec fn handle_worktree_switcher_key(self, key: Key) -> (AppView, Action) {
        if key == Key::Esc {
            (AppView { view_mode: ViewMode::Diff, filter_input: Seq::empty(), ..self }, Action::Continue)
        } else if key == Key::Enter {
            let matching = spec_matching(self.worktrees, self.filter_input);
            if self.popup_cursor < matching.len() {
                (
                    AppView {
                        view_mode: ViewMode::Diff,
                        filter_input: Seq::empty(),
                        ..self.switch_worktree(matching[self.popup_cursor as int])
                    },
                    Action::LoadData,
                )
            } else {
                (
                    AppView { view_mode: ViewMode::Diff, filter_input: Seq::empty(), ..self },
                    Action::Continue,
                )
            }
        } else if key == Key::Char('j') || key == Key::Down {
            (
                AppView {
                    popup_cursor: least(self.popup_cursor + 1, usize::MAX as nat),
                    ..self
                },
                Action::Continue,
            )
        } else if key == Key::Char('k') || key == Key::Up {
            (self.popup_up(), Action::Continue)
        } else if key is Char {
            (
                AppView {
                    filter_input: self.filter_input.push(key->Char_0),
                    popup_cursor: 0,
                    ..self
                },
                Action::Continue,
            )
        } else if key == Key::Backspace {
            (
                AppView {
                    filter_input: if self.filter_input.len() > 0 {
                        self.filter_input.drop_last()
                    } else {
                        self.filter_input
                    },
                    popup_cursor: 0,
                    ..self
                },
                Action::Continue,
            )
        } else {
            (self, Action::Continue)
        }
    }

    /// What a key does in the list of worktrees.
    pub open spec fn handle_worktree_list_key(self, key: Key) -> (AppView, Action) {
        if key == Key::Esc || key == Key::Char('q') {
            (AppView { view_mode: ViewMode::Diff, ..self }, Action::Continue)
        } else if key == Key::Enter {
            if self.popup_cursor < self.worktrees.len() {
                (
                    AppView {
                        view_mode: ViewMode::Diff,
                        ..self.switch_worktree(self.popup_cursor as int)
                    },
                    Action::LoadData,
                )
            } else {
                (AppView { view_mode: ViewMode::Diff, ..self }, Action::Continue)
            }
        } else if key == Key::Char('j') || key == Key::Down {
            (self.popup_down(self.worktrees.len()), Action::Continue)
        } else if key == Key::Char('k') || key == Key::Up {
            (self.popup_up(), Action::Continue)
        } else {
            (self, Action::Continue)
        }
    }

    /// What a key does in the help overlay.
    pub open spec fn handle_help_key(self, key: Key) -> (AppView, Action) {
        if key == Key::Esc || key == Key::Char('q') || key == Key::Char('?') {
            (AppView { view_mode: ViewMode::Diff, ..self }, Action::Continue)
        } else {
            (self, Action::Continue)
        }
    }

    /// What a key does, by what the screen shows.
    pub open spec fn handle_key(self, key: Key, mods: Modifiers) -> (AppView, Action) {
        match self.view_mode {
            ViewMode::Diff => self.handle_diff_key(key, mods),
            ViewMode::CommitFilter => self.handle_commit_filter_key(key),
            ViewMode::WorktreeSwitcher => self.handle_worktree_switcher_key(key),
            ViewMode::WorktreeList => self.handle_worktree_list_key(key),
            ViewMode::Help => self.handle_help_key(key),
        }
    }

    /// What the mouse does: the wheel scrolls the pane under the pointer,
    /// and the left button gives that pane the focus and, in the sidebar,
    /// selects a row.
    pub open spec fn handle_mouse(self, kind: MouseKind, column: nat, row: nat) -> AppView {
        let in_sidebar = column < SIDEBAR_WIDTH;
        match kind {
            MouseKind::ScrollDown => if in_sidebar {
                self.scroll_sidebar(MOUSE_SCROLL_LINES as nat, true)
            } else {
                self.scroll_content(MOUSE_SCROLL_LINES as nat, true)
            },
            MouseKind::ScrollUp => if in_sidebar {
                self.scroll_sidebar(MOUSE_SCROLL_LINES as nat, false)
            } else {
                self.scroll_content(MOUSE_SCROLL_LINES as nat, false)
            },
            MouseKind::LeftDown => if in_sidebar {
                AppView { focus: FocusArea::Sidebar, ..self }.handle_sidebar_click(row)
            } else {
                AppView { focus: FocusArea::Content, ..self }
            },
            MouseKind::Other => self,
        }
    }
}

/// Once the next file is where the content stands, going on changes
/// nothing.
pub proof fn lemma_next_files_fixpoint(v: AppView, n: nat)
    requires
        v.next_file() == v,
    ensures
        v.next_files(n) == v,
    decreases n,
{
    if n > 0 {
        lemma_next_files_fixpoint(v, (n - 1) as nat);
    }
}

/// Once the previous file is where the content stands, going on changes
/// nothing.
pub proof fn lemma_prev_files_fixpoint(v: AppView, n: nat)
    requires
        v.prev_file() == v,
    ensures
        v.prev_files(n) == v,
    decreases n,
{
    if n > 0 {
        lemma_prev_files_fixpoint(v, (n - 1) as nat);
    }
}

impl AppState {
    /// Scrolls the content to the next file, `count` times.
    pub fn next_files(&mut self, count: usize)
        requires
            old(self).wf(),
        ensures
            final(self)@ == old(self)@.next_files(count as nat),
            final(self).wf(),
    {
        let ghost start = self@;
        let mut i: usize = 0;
        let mut done = false;
        while i < count && !done
            invariant
                self.wf(),
                i <= count,
                self@.next_files((count - i) as nat) == start.next_files(count as nat),
                done ==> self@.next_file() == self@,
            decreases count - i,
        {
            let before = self.content_scroll;
            let ghost view_before = self@;
            self.next_file();
            i += 1;
            if self.content_scroll == before {
                assert(self@ == view_before);
                done = true;
            }
        }
        proof {
            if done {
                lemma_next_files_fixpoint(self@, (count - i) as nat);
            }
        }
    }

    /// Scrolls the content to the previous file, `count` times.
    pub fn prev_files(&mut self, count: usize)
        requires
            old(self).wf(),
        ensures
            final(self)@ == old(self)@.prev_files(count as nat),
            final(self).wf(),
    {
        let ghost start = self@;
        let mut i: usize = 0;
        let mut done = false;
        while i < count && !done
            invariant
                self.wf(),
                i <= count,
                self@.prev_files((count - i) as nat) == start.prev_files(count as nat),
                done ==> self@.prev_file() == self@,
            decreases count - i,
        {
            let before = self.content_scroll;
            let ghost view_before = self@;
            self.prev_file();
            i += 1;
            if self.content_scroll == before {
                assert(self@ == view_before);
                done = true;
            }
        }
        proof {
            if done {
                lemma_prev_files_fixpoint(self@, (count - i) as nat);
            }
        }
    }

    /// Rows of half a screen, `count` times.
    fn pages(&self, count: usize) -> (rows: usize)
        ensures
            rows == self@.pages(count as nat),
    {
        let page = (self.height / 2) as usize;
        assert(page * count == (self.height as nat / 2) * (count as nat)) by (nonlinear_arith)
            requires
                page == self.height as nat / 2,
        ;
        match page.checked_mul(count) {
            Some(rows) => rows,
            None => usize::MAX,
        }
    }

    /// Moves the focused pane by `amount` rows.
    fn move_focused(&mut self, amount: usize, forward: bool)
        requires
            old(self).wf(),
        ensures
            final(self)@ == old(self)@.move_focused(amount as nat, forward),
            final(self).wf(),
    {
        if self.focus == FocusArea::Sidebar {
            self.move_sidebar_cursor(amount, forward);
        } else {
            self.scroll_content(amount, forward);
        }
    }

    /// Scrolls the focused pane by `amount` rows.
    fn scroll_focused(&mut self, amount: usize, forward: bool)
        requires
            old(self).wf(),
        ensures
            final(self)@ == old(self)@.scroll_focused(amount as nat, forward),
            final(self).wf(),
    {
        if self.focus == FocusArea::Sidebar {
            self.scroll_sidebar(amount, forward);
        } else {
            self.scroll_content(amount, forward);
        }
    }

    /// Puts the focused pane at its last row, or at row `count` where a
    /// number was typed.
    fn go_to_bottom(&mut self, count: usize, had_prefix: bool)
        requires
            old(self).wf(),
        ensures
            final(self)@ == old(self)@.go_to_bottom(count as nat, had_prefix),
            final(self).wf(),
    {
        if self.focus == FocusArea::Sidebar {
            let target = if had_prefix {
                count.saturating_sub(1)
            } else {
                self.sidebar_len().saturating_sub(1)
            };
            self.set_sidebar_cursor(target);
        } else {
            let max = self.max_scroll();
            if had_prefix {
                let wanted = count.saturating_sub(1);
                self.content_scroll = if wanted <= max {
                    wanted
                } else {
                    max
                };
            } else {
                self.content_scroll = max;
            }
        }
    }

    /// Handles a key that moves through the diff; says whether the key was
    /// one.
    fn navigate(&mut self, key: Key, mods: Modifiers, count: usize, had_prefix: bool) -> (handled:
        bool)
        requires
            old(self).wf(),
        ensures
            match old(self)@.navigate(key, mods, count as nat, had_prefix) {
                Some(v) => handled && final(self)@ == v,
                None => !handled && final(self)@ == old(self)@,
            },
            final(self).wf(),
    {
        if key == Key::Char('j') || key == Key::Down {
            self.move_focused(count, true);
        } else if key == Key::Char('k') || key == Key::Up {
            self.move_focused(count, false);
        } else if key == Key::Char('d') && mods == Modifiers::Control {
            let rows = self.pages(count);
            self.scroll_focused(rows, true);
        } else if key == Key::Char('u') && mods == Modifiers::Control {
            let rows = self.pages(count);
            self.scroll_focused(rows, false);
        } else if key == Key::Char('g') {
            if self.focus == FocusArea::Sidebar {
                self.set_sidebar_cursor(0);
            } else {
                self.content_scroll = 0;
            }
        } else if key == Key::Char('G') {
            self.go_to_bottom(count, had_prefix);
        } else if key == Key::Char('n') {
            self.next_files(count);
        } else if key == Key::Char('N') {
            self.prev_files(count);
        } else if key == Key::Tab {
            self.focus = if self.focus == FocusArea::Sidebar {
                FocusArea::Content
            } else {
                FocusArea::Sidebar
            };
        } else {
            return false;
        }
        true
    }

    /// Handles a key that changes what is shown; says whether the key was
    /// one.
    fn change_shown(&mut self, key: Key, mods: Modifiers) -> (handled: bool)
        requires
            old(self).wf(),
        ensures
            match old(self)@.change_shown(key, mods) {
                Some(v) => handled && final(self)@ == v,
                None => !handled && final(self)@ == old(self)@,
            },
            final(self).wf(),
    {
        let sidebar = self.focus == FocusArea::Sidebar;
        if key == Key::Char('u') && mods == Modifiers::Plain {
            self.cycle_diff_mode();
        } else if key == Key::Char('h') && mods == Modifiers::Plain {
            self.toggle_hidden();
        } else if key == Key::Char(' ') {
            if sidebar {
                self.toggle_sidebar_node();
            } else {
                self.toggle_current_file();
            }
        } else if key == Key::Enter {
            if sidebar {
                self.jump_to_sidebar_selection();
            }
        } else if key == Key::Char('z') {
            self.toggle_all_files();
        } else {
            return false;
        }
        true
    }

    /// Handles a key that opens a popup or another view; says whether the
    /// key was one.
    fn open_popup(&mut self, key: Key, mods: Modifiers) -> (handled: bool)
        requires
            old(self).wf(),
        ensures
            match old(self)@.open_popup(key, mods) {
                Some(v) => handled && final(self)@ == v,
                None => !handled && final(self)@ == old(self)@,
            },
            final(self).wf(),
    {
        if key == Key::Char('c') {
            self.view_mode = ViewMode::CommitFilter;
            self.popup_cursor = 0;
        } else if key == Key::Char('w') && mods == Modifiers::Plain {
            self.view_mode = ViewMode::WorktreeSwitcher;
            self.popup_cursor = 0;
            self.filter_input = String::new();
        } else if key == Key::Char('W') {
            self.view_mode = ViewMode::WorktreeList;
            self.popup_cursor = self.current_worktree;
        } else if key == Key::Char('?') {
            self.view_mode = ViewMode::Help;
        } else {
            return false;
        }
        true
    }

    /// Takes a digit of the number typed before a command; says whether
    /// the key was a digit.
    fn take_digit(&mut self, key: Key) -> (taken: bool)
        requires
            old(self).wf(),
        ensures
            match key {
                Key::Char(c) => match digit_of(c) {
                    Some(d) => taken && final(self)@ == old(self)@.with_digit(d),
                    None => !taken && final(self)@ == old(self)@,
                },
                _ => !taken && final(self)@ == old(self)@,
            },
            final(self).wf(),
    {
        match key {
            Key::Char(c) => {
                match digit_value(c) {
                    Some(digit) => {
                        let prefix = match self.number_prefix {
                            Some(n) => n,
                            None => 0,
                        };
                        let number = match prefix.checked_mul(10) {
                            Some(tens) => tens.saturating_add(digit),
                            None => usize::MAX,
                        };
                        self.number_prefix = Some(number);
                        true
                    },
                    None => false,
                }
            },
            _ => false,
        }
    }

    /// Handles a key in the diff view.
    pub fn handle_diff_key(&mut self, key: Key, mods: Modifiers) -> (action: Action)
        requires
            old(self).wf(),
        ensures
            (final(self)@, action) == old(self)@.handle_diff_key(key, mods),
            final(self).wf(),
    {
        if self.take_digit(key) {
            return Action::Continue;
        }
        let (count, had_prefix) = match self.number_prefix {
            Some(n) => (n, true),
            None => (1, false),
        };
        self.number_prefix = None;
        if key == Key::Char('q') || key == Key::Esc {
            return Action::Quit;
        }
        if key == Key::Char('x') {
            self.context_lines = if self.context_lines == 3 {
                1
            } else if self.context_lines == 1 {
                0
            } else {
                3
            };
            return Action::ReloadDiffs;
        }
        if self.navigate(key, mods, count, had_prefix) {
            return Action::Continue;
        }
        if self.change_shown(key, mods) {
            return Action::Continue;
        }
        self.open_popup(key, mods);
        Action::Continue
    }

    /// Selects all commits, or none.
    fn select_all_commits(&mut self, selected: bool)
        requires
            old(self).wf(),
        ensures
            final(self)@ == (AppView { commits: select_all(old(self)@.commits, selected), ..old(self)@ }),
            final(self).wf(),
    {
        let ghost before = self@;
        let ghost target = select_all(before.commits, selected);
        let mut i: usize = 0;
        while i < self.commits.len()
            invariant
                i <= self.commits@.len(),
                self.wf(),
                self.commits@.len() == before.commits.len(),
                target == select_all(before.commits, selected),
                self@ == (AppView { commits: self.commits@, ..before }),
                forall|k: int| 0 <= k < i ==> (#[trigger] self.commits@[k]) == target[k],
                forall|k: int|
                    i <= k < self.commits@.len() ==> (#[trigger] self.commits@[k])
                        == before.commits[k],
            decreases self.commits@.len() - i,
        {
            self.commits[i].selected = selected;
            i += 1;
        }
        assert(self.commits@ =~= target);
    }

    /// Handles a key in the commit filter.
    pub fn handle_commit_filter_key(&mut self, key: Key) -> (action: Action)
        requires
            old(self).wf(),
        ensures
            (final(self)@, action) == old(self)@.handle_commit_filter_key(key),
            final(self).wf(),
    {
        if key == Key::Esc {
            self.view_mode = ViewMode::Diff;
        } else if key == Key::Enter {
            self.view_mode = ViewMode::Diff;
            return Action::ReloadDiffs;
        } else if key == Key::Char('j') || key == Key::Down {
            if self.popup_cursor < self.commits.len().saturating_sub(1) {
                self.popup_cursor += 1;
            }
        } else if key == Key::Char('k') || key == Key::Up {
            self.popup_cursor = self.popup_cursor.saturating_sub(1);
        } else if key == Key::Char(' ') {
            if self.popup_cursor < self.commits.len() {
                let ghost before = self.commits@;
                let i = self.popup_cursor;
                let selected = self.commits[i].selected;
                self.commits[i].selected = !selected;
                assert(self.commits@ =~= before.update(
                    i as int,
                    Commit { selected: !selected, ..before[i as int] },
                ));
            }
        } else if key == Key::Char('a') {
            self.select_all_commits(true);
        } else if key == Key::Char('n') {
            self.select_all_commits(false);
        }
        Action::Continue
    }

    /// Makes the worktree at `position` the one to look at.
    fn switch_worktree(&mut self, position: usize)
        requires
            old(self).wf(),
            position < old(self).worktrees@.len(),
        ensures
            final(self)@ == old(self)@.switch_worktree(position as int),
            final(self).wf(),
    {
        self.repo_path = self.worktrees[position].path.clone();
        self.current_worktree = position;
    }

    /// Handles a key in the worktree switcher.
    pub fn handle_worktree_switcher_key(&mut self, key: Key) -> (action: Action)
        requires
            old(self).wf(),
        ensures
            (final(self)@, action) == old(self)@.handle_worktree_switcher_key(key),
            final(self).wf(),
    {
        if key == Key::Esc {
            self.view_mode = ViewMode::Diff;
            self.filter_input = String::new();
        } else if key == Key::Enter {
            let matching = matching_worktrees(self.worktrees.as_slice(), self.filter_input.as_str());
            assert(positions_view(matching@).len() == matching@.len());
            let mut action = Action::Continue;
            if self.popup_cursor < matching.len() {
                let position = matching[self.popup_cursor];
                assert(positions_view(matching@)[self.popup_cursor as int] == position as int);
                self.switch_worktree(position);
                action = Action::LoadData;
            }
            self.view_mode = ViewMode::Diff;
            self.filter_input = String::new();
            return action;
        } else if key == Key::Char('j') || key == Key::Down {
            self.popup_cursor = self.popup_cursor.saturating_add(1);
        } else if key == Key::Char('k') || key == Key::Up {
            self.popup_cursor = self.popup_cursor.saturating_sub(1);
        } else if let Key::Char(c) = key {
            self.filter_input.push(c);
            self.popup_cursor = 0;
        } else if key == Key::Backspace {
            let chars = chars_of(self.filter_input.as_str());
            if chars.len() > 0 {
                let shorter = substring(self.filter_input.as_str(), 0, chars.len() - 1);
                assert(shorter@ =~= self.filter_input@.drop_last());
                self.filter_input = shorter;
            }
            self.popup_cursor = 0;
        }
        Action::Continue
    }

    /// Handles a key in the list of worktrees.
    pub fn handle_worktree_list_key(&mut self, key: Key) -> (action: Action)
        requires
            old(self).wf(),
        ensures
            (final(self)@, action) == old(self)@.handle_worktree_list_key(key),
            final(self).wf(),
    {
        if key == Key::Esc || key == Key::Char('q') {
            self.view_mode = ViewMode::Diff;
        } else if key == Key::Enter {
            let mut action = Action::Continue;
            if self.popup_cursor < self.worktrees.len() {
                let position = self.popup_cursor;
                self.switch_worktree(position);
                action = Action::LoadData;
            }
            self.view_mode = ViewMode::Diff;
            return action;
        } else if key == Key::Char('j') || key == Key::Down {
            if self.popup_cursor < self.worktrees.len().saturating_sub(1) {
                self.popup_cursor += 1;
            }
        } else if key == Key::Char('k') || key == Key::Up {
            self.popup_cursor = self.popup_cursor.saturating_sub(1);
        }
        Action::Continue
    }

    /// Handles a key in the help overlay.
    pub fn handle_help_key(&mut self, key: Key) -> (action: Action)
        requires
            old(self).wf(),
        ensures
            (final(self)@, action) == old(self)@.handle_help_key(key),
            final(self).wf(),
    {
        if key == Key::Esc || key == Key::Char('q') || key == Key::Char('?') {
            self.view_mode = ViewMode::Diff;
        }
        Action::Continue
    }

    /// Handles a key and says what is left to do.
    pub fn handle_key(&mut self, key: Key, mods: Modifiers) -> (action: Action)
        requires
            old(self).wf(),
        ensures
            (final(self)@, action) == old(self)@.handle_key(key, mods),
            final(self).wf(),
    {
        match self.view_mode {
            ViewMode::Diff => self.handle_diff_key(key, mods),
            ViewMode::CommitFilter => self.handle_commit_filter_key(key),
            ViewMode::WorktreeSwitcher => self.handle_worktree_switcher_key(key),
            ViewMode::WorktreeList => self.handle_worktree_list_key(key),
            ViewMode::Help => self.handle_help_key(key),
        }
    }

    /// Handles the mouse at a screen position.
    pub fn handle_mouse(&mut self, kind: MouseKind, column: u16, row: u16)
        requires
            old(self).wf(),
        ensures
            final(self)@ == old(self)@.handle_mouse(kind, column as nat, row as nat),
            final(self).wf(),
    {
        let in_sidebar = column < SIDEBAR_WIDTH;
        match kind {
            MouseKind::ScrollDown => {
                if in_sidebar {
                    self.scroll_sidebar(MOUSE_SCROLL_LINES, true);
                } else {
                    self.scroll_content(MOUSE_SCROLL_LINES, true);
                }
            },
            MouseKind::ScrollUp => {
                if in_sidebar {
                    self.scroll_sidebar(MOUSE_SCROLL_LINES, false);
                } else {
                    self.scroll_content(MOUSE_SCROLL_LINES, false);
                }
            },
            MouseKind::LeftDown => {
                if in_sidebar {
                    self.focus = FocusArea::Sidebar;
                    self.handle_sidebar_click(row);
                } else {
                    self.focus = FocusArea::Content;
                }
            },
            MouseKind::Other => {},
        }
    }
}

} // verus!
