//! Worktrees of a repository and the choice of the one that holds a path.

use vstd::prelude::*;

verus! {

/// A worktree of the repository.
#[derive(Debug, Clone)]
pub struct Worktree {
    /// Directory of the worktree.
    pub path: String,
    /// Branch that is checked out; none for a detached head.
    pub branch: Option<String>,
    pub is_current: bool,
}

/// `path` lies in the directory `base` or is `base`: `base` is a prefix of
/// `path` that ends where a component of `path` ends. Both paths are in
/// resolved form.
pub open spec fn path_within(path: Seq<char>, base: Seq<char>) -> bool {
    &&& base.len() <= path.len()
    &&& path.take(base.len() as int) == base
    &&& (base.len() == path.len() || path[base.len() as int] == '/' || (base.len() > 0
        && base.last() == '/'))
}

/// Worktree `i` has a resolved directory that holds `current`.
pub open spec fn holds_path(resolved: Seq<Option<String>>, current: Seq<char>, i: int) -> bool {
    0 <= i < resolved.len() && resolved[i] is Some && path_within(current, resolved[i]->0@)
}

/// Worktree `best` is the one that holds `current` most closely among the
/// first `n`: none of them holds it in a longer directory, and none before
/// `best` in one as long.
pub open spec fn closest_holder(
    resolved: Seq<Option<String>>,
    current: Seq<char>,
    n: int,
    best: int,
) -> bool {
    &&& holds_path(resolved, current, best)
    &&& best < n
    &&& forall|i: int|
        0 <= i < n && #[trigger] holds_path(resolved, current, i) ==> resolved[i]->0@.len()
            <= resolved[best]->0@.len()
    &&& forall|i: int|
        0 <= i < best && #[trigger] holds_path(resolved, current, i) ==> resolved[i]->0@.len()
            < resolved[best]->0@.len()
}

/// Whether `path` lies in the directory `base` or is `base`.
pub fn is_path_within(path: &[char], base: &[char]) -> (within: bool)
    ensures
        within == path_within(path@, base@),
{
    let len = base.len();
    if len > path.len() {
        return false;
    }
    let mut i: usize = 0;
    while i < len
        invariant
            i <= len,
            len == base@.len(),
            len <= path@.len(),
            forall|k: int| 0 <= k < i ==> path@[k] == base@[k],
        decreases len - i,
    {
        if path[i] != base[i] {
            assert(path@.take(len as int)[i as int] != base@[i as int]);
            return false;
        }
        i += 1;
    }
    assert(path@.take(len as int) =~= base@);
    len == path.len() || path[len] == '/' || (len > 0 && base[len - 1] == '/')
}

/// Marks the worktree that holds the path `current_path` as current and
/// returns its position. `resolved[i]` is the resolved directory of
/// worktree `i`, where it could be resolved, and `current_path` is in
/// resolved form. Of several worktrees that hold the path the one with the
/// longest directory is chosen, the first of them on a tie. Without a
/// holder nothing changes.
pub fn find_current_worktree(
    worktrees: &mut Vec<Worktree>,
    resolved: &Vec<Option<String>>,
    current_path: &str,
) -> (found: Option<usize>)
    requires
        resolved@.len() == old(worktrees)@.len(),
    ensures
        final(worktrees)@.len() == old(worktrees)@.len(),
        match found {
            Some(best) => {
                &&& closest_holder(resolved@, current_path@, resolved@.len() as int, best as int)
                &&& final(worktrees)@[best as int].is_current
                &&& final(worktrees)@[best as int].path == old(worktrees)@[best as int].path
                &&& final(worktrees)@[best as int].branch == old(worktrees)@[best as int].branch
                &&& forall|i: int|
                    0 <= i < old(worktrees)@.len() && i != best ==> final(worktrees)@[i] == old(
                        worktrees,
                    )@[i]
            },
            None => {
                &&& forall|i: int|
                    0 <= i < resolved@.len() ==> !#[trigger] holds_path(
                        resolved@,
                        current_path@,
                        i,
                    )
                &&& final(worktrees)@ == old(worktrees)@
            },
        },
{
    let current = crate::text::chars_of(current_path);
    let mut best: Option<(usize, usize)> = None;
    let mut i: usize = 0;
    while i < resolved.len()
        invariant
            i <= resolved@.len(),
            current@ == current_path@,
            match best {
                Some((b, len)) => closest_holder(resolved@, current_path@, i as int, b as int)
                    && len == resolved@[b as int]->0@.len(),
                None => forall|k: int|
                    0 <= k < i ==> !#[trigger] holds_path(resolved@, current_path@, k),
            },
        decreases resolved@.len() - i,
    {
        match &resolved[i] {
            Some(dir) => {
                let chars = crate::text::chars_of(dir.as_str());
                if is_path_within(current.as_slice(), chars.as_slice()) {
                    let len = chars.len();
                    let closer = match best {
                        Some((_, best_len)) => len > best_len,
                        None => true,
                    };
                    if closer {
                        best = Some((i, len));
                    }
                }
            },
            None => {},
        }
        i += 1;
    }
    match best {
        Some((b, _)) => {
            let ghost before = worktrees@;
            let worktree = worktrees.remove(b);
            worktrees.insert(
                b,
                Worktree { path: worktree.path, branch: worktree.branch, is_current: true },
            );
            assert(forall|k: int|
                0 <= k < before.len() && k != b ==> worktrees@[k] == before[k]);
            Some(b)
        },
        None => None,
    }
}

/// The branch to compare against, given which branches exist: the main
/// branch of the origin, else its master branch, else the local main
/// branch, else the local master branch, and `main` where none exists.
pub open spec fn spec_main_branch(
    origin_main: bool,
    origin_master: bool,
    local_main: bool,
    local_master: bool,
) -> Seq<char> {
    if origin_main {
        "origin/main"@
    } else if origin_master {
        "origin/master"@
    } else if local_main {
        "main"@
    } else if local_master {
        "master"@
    } else {
        "main"@
    }
}

/// The branch to compare against, given which branches exist.
pub fn choose_main_branch(
    origin_main: bool,
    origin_master: bool,
    local_main: bool,
    local_master: bool,
) -> (branch: &'static str)
    ensures
        branch@ == spec_main_branch(origin_main, origin_master, local_main, local_master),
{
    if origin_main {
        "origin/main"
    } else if origin_master {
        "origin/master"
    } else if local_main {
        "main"
    } else if local_master {
        "master"
    } else {
        "main"
    }
}

} // verus!
