//! Machine limits: whether the rows, positions and totals of a diff set
//! can be counted in `usize` whatever is collapsed, hidden or shown.

use vstd::prelude::*;
use crate::diff::{
    FileDiff, FileDiffView, files_view, lemma_total_added_monotonic,
    lemma_total_removed_monotonic, total_added, total_removed,
};
use crate::index::{
    DiffMode, hunks_rows, lemma_hunks_rows_monotonic, lemma_rows_before_ascends, rows_before,
    spec_file_line_count, spec_total_lines,
};
use crate::pairing::{paired_row_count, shown_line_count};
use crate::rows::{index_bound, lemma_lines_before_monotonic, lines_before, new_len, old_len};

verus! {

/// The file with its rows shown.
pub open spec fn open_file(f: FileDiffView) -> FileDiffView {
    FileDiffView { collapsed: false, ..f }
}

/// The files with their rows shown.
pub open spec fn open_files(files: Seq<FileDiffView>) -> Seq<FileDiffView> {
    files.map_values(|f: FileDiffView| open_file(f))
}

/// The totals of added and removed lines, the positions that a cell can
/// name, and the rows of all files in every layout, none collapsed, fit in
/// `usize`.
pub open spec fn fits(files: Seq<FileDiffView>) -> bool {
    let all = open_files(files);
    &&& total_added(all, all.len() as int) <= usize::MAX
    &&& total_removed(all, all.len() as int) <= usize::MAX
    &&& forall|i: int| 0 <= i < all.len() ==> index_bound(#[trigger] all[i]) <= usize::MAX
    &&& spec_total_lines(all, DiffMode::Unified) <= usize::MAX
    &&& spec_total_lines(all, DiffMode::SideBySide) <= usize::MAX
    &&& spec_total_lines(all, DiffMode::SideBySideFull) <= usize::MAX
}

/// The files at the given positions, in that order.
pub open spec fn pick_files(files: Seq<FileDiffView>, positions: Seq<int>) -> Seq<FileDiffView> {
    positions.map_values(|i: int| files[i])
}

/// The positions lie in `0..len` and ascend.
pub open spec fn ascending(positions: Seq<int>, len: int) -> bool {
    &&& forall|k: int| 0 <= k < positions.len() ==> 0 <= #[trigger] positions[k] < len
    &&& forall|j: int, k: int|
        0 <= j < k < positions.len() ==> #[trigger] positions[j] < #[trigger] positions[k]
}

/// Showing a file's rows changes neither its totals nor its positions.
pub proof fn lemma_open_totals(files: Seq<FileDiffView>, n: int)
    requires
        0 <= n <= files.len(),
    ensures
        total_added(open_files(files), n) == total_added(files, n),
        total_removed(open_files(files), n) == total_removed(files, n),
    decreases n,
{
    if n > 0 {
        lemma_open_totals(files, n - 1);
    }
}

/// A file has at most the rows that it has with its rows shown.
pub proof fn lemma_open_has_most_rows(f: FileDiffView, mode: DiffMode)
    ensures
        spec_file_line_count(f, mode) <= spec_file_line_count(open_file(f), mode),
{
}

/// Some of the files, in their order, have at most the rows that all files
/// have with their rows shown.
pub proof fn lemma_picked_rows_within(
    files: Seq<FileDiffView>,
    positions: Seq<int>,
    mode: DiffMode,
    k: int,
)
    requires
        ascending(positions, files.len() as int),
        0 <= k <= positions.len(),
    ensures
        k == 0 ==> rows_before(pick_files(files, positions), mode, k) == 0,
        k > 0 ==> rows_before(pick_files(files, positions), mode, k) <= rows_before(
            open_files(files),
            mode,
            positions[k - 1] + 1,
        ),
        rows_before(pick_files(files, positions), mode, k) <= spec_total_lines(
            open_files(files),
            mode,
        ),
    decreases k,
{
    let all = open_files(files);
    if k > 0 {
        lemma_picked_rows_within(files, positions, mode, k - 1);
        let i = positions[k - 1];
        if k > 1 {
            assert(positions[k - 2] < positions[k - 1]);
            lemma_rows_before_ascends(all, mode, positions[k - 2] + 1, i);
        }
        lemma_rows_before_ascends(all, mode, 0, i);
        lemma_open_has_most_rows(files[i], mode);
        lemma_rows_before_ascends(all, mode, i + 1, all.len() as int);
    }
}

/// Rows of all hunks of a file, each with `header` rows in front of its
/// lines; `None` where they cannot be counted in `usize`.
fn checked_hunk_rows(diff: &FileDiff, mode: DiffMode, header: usize) -> (count: Option<usize>)
    ensures
        match count {
            Some(c) => c == hunks_rows(diff@.hunks, diff@.hunks.len() as int, mode, header as nat),
            None => hunks_rows(diff@.hunks, diff@.hunks.len() as int, mode, header as nat)
                > usize::MAX,
        },
{
    let ghost hunks = diff@.hunks;
    let mut total: usize = 0;
    let mut h: usize = 0;
    while h < diff.hunks.len()
        invariant
            h <= diff.hunks@.len(),
            hunks == diff@.hunks,
            hunks.len() == diff.hunks@.len(),
            total == hunks_rows(hunks, h as int, mode, header as nat),
        decreases diff.hunks@.len() - h,
    {
        let lines = diff.hunks[h].lines.as_slice();
        let rows = match mode {
            DiffMode::Unified => shown_line_count(lines),
            _ => paired_row_count(lines),
        };
        proof {
            assert(hunks[h as int].lines == crate::diff::diff_lines_view(diff.hunks@[h as int].lines@));
            lemma_hunks_rows_monotonic(hunks, h as int + 1, hunks.len() as int, mode, header as nat);
        }
        let with_header = match total.checked_add(header) {
            Some(t) => t,
            None => {
                return None;
            },
        };
        total = match with_header.checked_add(rows) {
            Some(t) => t,
            None => {
                return None;
            },
        };
        h += 1;
    }
    Some(total)
}

/// Rows of a file with its rows shown; `None` where they cannot be counted
/// in `usize`.
pub fn checked_open_line_count(diff: &FileDiff, mode: DiffMode) -> (count: Option<usize>)
    ensures
        match count {
            Some(c) => c == spec_file_line_count(open_file(diff@), mode),
            None => spec_file_line_count(open_file(diff@), mode) > usize::MAX,
        },
{
    if diff.is_binary {
        return Some(1);
    }
    let ghost f = open_file(diff@);
    let content = match mode {
        DiffMode::SideBySideFull => {
            match (&diff.old_content, &diff.new_content) {
                (Some(old_lines), Some(new_lines)) => {
                    let old_count = old_lines.len();
                    let new_count = new_lines.len();
                    assert(f.old_content->0.len() == old_count);
                    assert(f.new_content->0.len() == new_count);
                    if old_count >= new_count {
                        old_count.checked_add(diff.added)
                    } else {
                        new_count.checked_add(diff.removed)
                    }
                },
                _ => checked_hunk_rows(diff, DiffMode::SideBySide, 0),
            }
        },
        _ => checked_hunk_rows(diff, mode, 1),
    };
    match content {
        Some(c) => c.checked_add(1),
        None => None,
    }
}

/// The largest position that a cell of the file can name; `None` where it
/// does not fit in `usize`.
fn checked_index_bound(diff: &FileDiff) -> (bound: Option<usize>)
    ensures
        match bound {
            Some(b) => b == index_bound(diff@),
            None => index_bound(diff@) > usize::MAX,
        },
{
    let ghost f = diff@;
    let old_count = match &diff.old_content {
        Some(lines) => lines.len(),
        None => 0,
    };
    let new_count = match &diff.new_content {
        Some(lines) => lines.len(),
        None => 0,
    };
    assert(old_count == old_len(f));
    assert(new_count == new_len(f));
    let longer = if old_count >= new_count {
        old_count
    } else {
        new_count
    };
    let mut lines: usize = 0;
    let mut h: usize = 0;
    while h < diff.hunks.len()
        invariant
            h <= diff.hunks@.len(),
            f == diff@,
            f.hunks.len() == diff.hunks@.len(),
            lines == lines_before(f.hunks, h as int),
        decreases diff.hunks@.len() - h,
    {
        proof {
            assert(f.hunks[h as int].lines.len() == diff.hunks@[h as int].lines@.len());
            lemma_lines_before_monotonic(f.hunks, h as int + 1, f.hunks.len() as int);
        }
        lines = match lines.checked_add(diff.hunks[h].lines.len()) {
            Some(l) => l,
            None => {
                return None;
            },
        };
        h += 1;
    }
    longer.checked_add(lines)
}

/// Rows of all files with their rows shown; `None` where they cannot be
/// counted in `usize`.
fn checked_open_total(diffs: &[FileDiff], mode: DiffMode) -> (total: Option<usize>)
    ensures
        match total {
            Some(t) => t == spec_total_lines(open_files(files_view(diffs@)), mode),
            None => spec_total_lines(open_files(files_view(diffs@)), mode) > usize::MAX,
        },
{
    let ghost all = open_files(files_view(diffs@));
    let mut total: usize = 0;
    let mut i: usize = 0;
    while i < diffs.len()
        invariant
            i <= diffs@.len(),
            all == open_files(files_view(diffs@)),
            total == rows_before(all, mode, i as int),
        decreases diffs@.len() - i,
    {
        proof {
            lemma_rows_before_ascends(all, mode, i as int + 1, all.len() as int);
        }
        let count = match checked_open_line_count(&diffs[i], mode) {
            Some(c) => c,
            None => {
                return None;
            },
        };
        total = match total.checked_add(count) {
            Some(t) => t,
            None => {
                return None;
            },
        };
        i += 1;
    }
    Some(total)
}

/// Whether the totals of added and removed lines and every position of a
/// cell fit in `usize`.
fn totals_fit(diffs: &[FileDiff]) -> (fit: bool)
    ensures
        fit == {
            let all = open_files(files_view(diffs@));
            &&& total_added(all, all.len() as int) <= usize::MAX
            &&& total_removed(all, all.len() as int) <= usize::MAX
            &&& forall|i: int| 0 <= i < all.len() ==> index_bound(#[trigger] all[i]) <= usize::MAX
        },
{
    let ghost all = open_files(files_view(diffs@));
    let mut added: usize = 0;
    let mut removed: usize = 0;
    let mut i: usize = 0;
    while i < diffs.len()
        invariant
            i <= diffs@.len(),
            all == open_files(files_view(diffs@)),
            added == total_added(all, i as int),
            removed == total_removed(all, i as int),
            forall|k: int| 0 <= k < i ==> index_bound(#[trigger] all[k]) <= usize::MAX,
        decreases diffs@.len() - i,
    {
        proof {
            lemma_total_added_monotonic(all, i as int + 1, all.len() as int);
            lemma_total_removed_monotonic(all, i as int + 1, all.len() as int);
            assert(index_bound(all[i as int]) == index_bound(diffs@[i as int]@));
        }
        added = match added.checked_add(diffs[i].added) {
            Some(a) => a,
            None => {
                return false;
            },
        };
        removed = match removed.checked_add(diffs[i].removed) {
            Some(r) => r,
            None => {
                return false;
            },
        };
        if checked_index_bound(&diffs[i]).is_none() {
            return false;
        }
        i += 1;
    }
    true
}

/// Whether a diff set is within the machine limits.
pub fn fits_limits(diffs: &[FileDiff]) -> (fit: bool)
    ensures
        fit == fits(files_view(diffs@)),
{
    totals_fit(diffs) && checked_open_total(diffs, DiffMode::Unified).is_some()
        && checked_open_total(diffs, DiffMode::SideBySide).is_some() && checked_open_total(
        diffs,
        DiffMode::SideBySideFull,
    ).is_some()
}

} // verus!
