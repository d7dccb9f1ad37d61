//! The worktree filter: which worktrees match what the user typed.

use vstd::prelude::*;
use crate::text::chars_of;
use crate::worktree::Worktree;

verus! {

/// The lowercase form of a text.
pub uninterp spec fn lowercase_of(text: Seq<char>) -> Seq<char>;

/// `str::to_lowercase` of the standard library: the lowercase form of a
/// text, which is a function of the text alone.
#[verifier::external_body]
fn to_lowercase(text: &str) -> (lower: String)
    ensures
        lower@ == lowercase_of(text@),
{
    text.to_lowercase()
}

/// `needle` occurs in `hay` at position `i`.
pub open spec fn occurs_at(hay: Seq<char>, needle: Seq<char>, i: int) -> bool {
    0 <= i && i + needle.len() <= hay.len() && hay.subrange(i, i + needle.len()) == needle
}

/// `needle` occurs somewhere in `hay`.
pub open spec fn contains_seq(hay: Seq<char>, needle: Seq<char>) -> bool {
    exists|i: int| occurs_at(hay, needle, i)
}

/// A worktree matches a filter when the filter is empty or occurs, case
/// ignored, in the worktree's path or branch.
pub open spec fn matches_filter(worktree: Worktree, filter: Seq<char>) -> bool {
    ||| filter.len() == 0
    ||| contains_seq(lowercase_of(worktree.path@), lowercase_of(filter))
    ||| worktree.branch matches Some(b) && contains_seq(lowercase_of(b@), lowercase_of(filter))
}

/// Positions of the worktrees among the first `n` that match the filter.
pub open spec fn matching_upto(worktrees: Seq<Worktree>, filter: Seq<char>, n: int) -> Seq<int>
    decreases n,
{
    if n <= 0 || n > worktrees.len() {
        Seq::empty()
    } else if matches_filter(worktrees[n - 1], filter) {
        matching_upto(worktrees, filter, n - 1).push(n - 1)
    } else {
        matching_upto(worktrees, filter, n - 1)
    }
}

/// Positions of the worktrees that match the filter, in order.
pub open spec fn spec_matching(worktrees: Seq<Worktree>, filter: Seq<char>) -> Seq<int> {
    matching_upto(worktrees, filter, worktrees.len() as int)
}

/// Whether `needle` occurs in `hay` at position `i`.
fn occurs_here(hay: &[char], needle: &[char], i: usize) -> (occurs: bool)
    requires
        i + needle@.len() <= hay@.len(),
    ensures
        occurs == occurs_at(hay@, needle@, i as int),
{
    let len = needle.len();
    let hay_len = hay.len();
    let mut k: usize = 0;
    while k < len
        invariant
            k <= len,
            len == needle@.len(),
            hay_len == hay@.len(),
            i + len <= hay_len,
            forall|j: int| 0 <= j < k ==> hay@[i + j] == #[trigger] needle@[j],
        decreases len - k,
    {
        if hay[i + k] != needle[k] {
            assert(hay@.subrange(i as int, i + len)[k as int] != needle@[k as int]);
            return false;
        }
        k += 1;
    }
    assert(hay@.subrange(i as int, i + len) =~= needle@);
    true
}

/// Whether `needle` occurs somewhere in `hay`.
pub fn contains_chars(hay: &[char], needle: &[char]) -> (found: bool)
    ensures
        found == contains_seq(hay@, needle@),
{
    if needle.len() > hay.len() {
        return false;
    }
    let last = hay.len() - needle.len();
    let mut i: usize = 0;
    while i < last
        invariant
            i <= last,
            last + needle@.len() == hay@.len(),
            forall|j: int| 0 <= j < i ==> !occurs_at(hay@, needle@, j),
        decreases last - i,
    {
        if occurs_here(hay, needle, i) {
            return true;
        }
        i += 1;
    }
    occurs_here(hay, needle, last)
}

/// Whether `needle` occurs somewhere in `hay`.
pub fn contains_text(hay: &str, needle: &str) -> (found: bool)
    ensures
        found == contains_seq(hay@, needle@),
{
    let h = chars_of(hay);
    let n = chars_of(needle);
    contains_chars(h.as_slice(), n.as_slice())
}

/// Whether a worktree matches a filter.
pub fn worktree_matches(worktree: &Worktree, filter: &str) -> (matches: bool)
    ensures
        matches == matches_filter(*worktree, filter@),
{
    let typed = chars_of(filter);
    if typed.len() == 0 {
        return true;
    }
    let wanted = to_lowercase(filter);
    let path = to_lowercase(worktree.path.as_str());
    if contains_text(path.as_str(), wanted.as_str()) {
        return true;
    }
    match &worktree.branch {
        Some(b) => {
            let branch = to_lowercase(b.as_str());
            contains_text(branch.as_str(), wanted.as_str())
        },
        None => false,
    }
}

/// Positions of the worktrees that match a filter, in order.
pub fn matching_worktrees(worktrees: &[Worktree], filter: &str) -> (positions: Vec<usize>)
    ensures
        crate::file_tree::positions_view(positions@) == spec_matching(worktrees@, filter@),
        forall|k: int| 0 <= k < positions@.len() ==> (#[trigger] positions@[k]) < worktrees@.len(),
{
    let mut positions: Vec<usize> = Vec::new();
    let mut i: usize = 0;
    assert(crate::file_tree::positions_view(positions@) =~= matching_upto(worktrees@, filter@, 0));
    while i < worktrees.len()
        invariant
            i <= worktrees@.len(),
            crate::file_tree::positions_view(positions@) == matching_upto(
                worktrees@,
                filter@,
                i as int,
            ),
            forall|k: int| 0 <= k < positions@.len() ==> (#[trigger] positions@[k]) < worktrees@.len(),
        decreases worktrees@.len() - i,
    {
        if worktree_matches(&worktrees[i], filter) {
            let ghost so_far = positions@;
            positions.push(i);
            assert(crate::file_tree::positions_view(positions@)
                =~= crate::file_tree::positions_view(so_far).push(i as int));
        }
        i += 1;
    }
    positions
}

} // verus!
