//! What the screen shows and where input goes.

use vstd::prelude::*;

verus! {

/// What the screen shows.
#[derive(Debug, Clone, Copy, PartialEq, Eq, Structural)]
pub enum ViewMode {
    /// The diff with its sidebar.
    Diff,
    /// The commit filter over the diff.
    CommitFilter,
    /// The worktree switcher over the diff.
    WorktreeSwitcher,
    /// The list of worktrees.
    WorktreeList,
    /// The help overlay.
    Help,
}

/// The pane that takes navigation keys.
#[derive(Debug, Clone, Copy, PartialEq, Eq, Structural)]
pub enum FocusArea {
    Sidebar,
    Content,
}

} // verus!
