//! Commits of a branch and the selection among them.

use vstd::prelude::*;
use vstd::string::StringExecFns;
use crate::text::{chars_of, substring};

verus! {

/// A commit offered for selection.
#[derive(Debug, Clone)]
pub struct Commit {
    /// The first seven characters of the hash.
    pub hash: String,
    pub full_hash: String,
    /// First line of the message.
    pub subject: String,
    pub selected: bool,
    /// The entry that stands for the changes not yet committed.
    pub is_uncommitted: bool,
}

/// What is to be compared to show the selected changes.
#[derive(Debug, Clone, Copy, PartialEq, Eq, Structural)]
pub enum DiffPlan {
    /// The head commit against the working directory.
    HeadToWorkdir,
    /// The base branch against the working directory.
    BaseToWorkdir,
    /// The base branch against the head commit.
    BaseToHead,
    /// Nothing is selected.
    Nothing,
}

/// The plan for a selection: the working directory is compared when the
/// uncommitted changes are selected, against the head commit when they
/// alone are selected.
pub open spec fn spec_plan_diff(include_uncommitted: bool, commits_selected: bool) -> DiffPlan {
    if include_uncommitted && !commits_selected {
        DiffPlan::HeadToWorkdir
    } else if include_uncommitted {
        DiffPlan::BaseToWorkdir
    } else if commits_selected {
        DiffPlan::BaseToHead
    } else {
        DiffPlan::Nothing
    }
}

/// The uncommitted changes are among the first `n` commits and selected.
pub open spec fn uncommitted_selected(commits: Seq<Commit>, n: int) -> bool {
    exists|i: int| 0 <= i < n && (#[trigger] commits[i]).is_uncommitted && commits[i].selected
}

/// The full hashes of the selected commits among the first `n`, in order;
/// the entry for uncommitted changes is none of them.
pub open spec fn hashes_upto(commits: Seq<Commit>, n: int) -> Seq<Seq<char>>
    decreases n,
{
    if n <= 0 || n > commits.len() {
        Seq::empty()
    } else if commits[n - 1].selected && !commits[n - 1].is_uncommitted {
        hashes_upto(commits, n - 1).push(commits[n - 1].full_hash@)
    } else {
        hashes_upto(commits, n - 1)
    }
}

impl Commit {
    /// The entry that stands for the changes not yet committed.
    pub fn uncommitted() -> (commit: Commit)
        ensures
            commit.hash@ == "-------"@,
            commit.full_hash@ == Seq::<char>::empty(),
            commit.subject@ == "(uncommitted changes)"@,
            commit.selected,
            commit.is_uncommitted,
    {
        Commit {
            hash: String::from_str("-------"),
            full_hash: String::new(),
            subject: String::from_str("(uncommitted changes)"),
            selected: true,
            is_uncommitted: true,
        }
    }

    /// A selected commit with the given hash and subject. The short hash is
    /// the first seven characters; `None` for a hash shorter than that.
    pub fn from_hash(full_hash: &str, subject: &str) -> (commit: Option<Commit>)
        ensures
            match commit {
                Some(c) => {
                    &&& full_hash@.len() >= 7
                    &&& c.hash@ == full_hash@.take(7)
                    &&& c.full_hash@ == full_hash@
                    &&& c.subject@ == subject@
                    &&& c.selected
                    &&& !c.is_uncommitted
                },
                None => full_hash@.len() < 7,
            },
    {
        let chars = chars_of(full_hash);
        if chars.len() < 7 {
            return None;
        }
        let hash = substring(full_hash, 0, 7);
        assert(hash@ =~= full_hash@.take(7));
        Some(
            Commit {
                hash,
                full_hash: String::from_str(full_hash),
                subject: String::from_str(subject),
                selected: true,
                is_uncommitted: false,
            },
        )
    }
}

/// What is to be compared for a selection.
pub fn plan_diff(include_uncommitted: bool, commits_selected: bool) -> (plan: DiffPlan)
    ensures
        plan == spec_plan_diff(include_uncommitted, commits_selected),
{
    if include_uncommitted && !commits_selected {
        DiffPlan::HeadToWorkdir
    } else if include_uncommitted {
        DiffPlan::BaseToWorkdir
    } else if commits_selected {
        DiffPlan::BaseToHead
    } else {
        DiffPlan::Nothing
    }
}

/// Whether the uncommitted changes are selected.
pub fn include_uncommitted(commits: &[Commit]) -> (included: bool)
    ensures
        included == uncommitted_selected(commits@, commits@.len() as int),
{
    let mut i: usize = 0;
    while i < commits.len()
        invariant
            i <= commits@.len(),
            !uncommitted_selected(commits@, i as int),
        decreases commits@.len() - i,
    {
        if commits[i].is_uncommitted && commits[i].selected {
            return true;
        }
        i += 1;
    }
    false
}

/// The full hashes of the selected commits, in order.
pub fn selected_hashes(commits: &[Commit]) -> (hashes: Vec<String>)
    ensures
        crate::diff::lines_view(hashes@) == hashes_upto(commits@, commits@.len() as int),
{
    let mut hashes: Vec<String> = Vec::new();
    let mut i: usize = 0;
    assert(crate::diff::lines_view(hashes@) =~= hashes_upto(commits@, 0));
    while i < commits.len()
        invariant
            i <= commits@.len(),
            crate::diff::lines_view(hashes@) == hashes_upto(commits@, i as int),
        decreases commits@.len() - i,
    {
        if commits[i].selected && !commits[i].is_uncommitted {
            let ghost so_far = hashes@;
            hashes.push(commits[i].full_hash.clone());
            assert(crate::diff::lines_view(hashes@) =~= crate::diff::lines_view(so_far).push(
                commits@[i as int].full_hash@,
            ));
        }
        i += 1;
    }
    hashes
}

} // verus!
