//! Laws that tie the rows of the full-file layout to the rows that the
//! index counts.

use vstd::prelude::*;
use crate::diff::{FileDiffView, kinds_of};
use crate::index::{
    DiffMode, has_full_content, hunks_overlap, hunks_rows, lemma_hunks_rows_by_side, side_lines,
    spec_file_line_count, spec_full_line_count,
};
use crate::pairing::pairing;
use crate::rows::{
    cursors_after, fill_target, full_rows, full_rows_of_hunk, full_rows_upto, new_len, old_len,
    spec_file_rows, tail_target,
};

verus! {

/// Hunk `h` starts at or behind the content cursors and within the
/// content, and as far behind the one cursor as behind the other: the lines
/// between the hunks are the same on both sides.
pub open spec fn hunk_aligned(f: FileDiffView, h: int) -> bool {
    let before = cursors_after(f, h);
    let hunk = f.hunks[h];
    &&& before.0 + 1 <= hunk.old_start <= old_len(f) + 1
    &&& before.1 + 1 <= hunk.new_start <= new_len(f) + 1
    &&& hunk.old_start - before.0 == hunk.new_start - before.1
}

/// The hunks of the file fit its full content: each starts where the lines
/// between the hunks lead, and behind the last hunk both sides have the
/// same number of lines left.
pub open spec fn aligned(f: FileDiffView) -> bool {
    let end = cursors_after(f, f.hunks.len() as int);
    &&& has_full_content(f)
    &&& forall|h: int| 0 <= h < f.hunks.len() ==> #[trigger] hunk_aligned(f, h)
    &&& end.0 <= old_len(f)
    &&& end.1 <= new_len(f)
    &&& old_len(f) - end.0 == new_len(f) - end.1
}

/// The rows of the first `n` hunks of an aligned file are the lines of
/// either side up to the cursor, less the hunk lines of that side, and the
/// paired rows of the hunks.
proof fn lemma_full_rows_upto_len(f: FileDiffView, n: int)
    requires
        has_full_content(f),
        0 <= n <= f.hunks.len(),
        forall|h: int| 0 <= h < f.hunks.len() ==> #[trigger] hunk_aligned(f, h),
    ensures
        full_rows_upto(f, n).len() + side_lines(f.hunks, n, true) == cursors_after(f, n).0
            + hunks_rows(f.hunks, n, DiffMode::SideBySide, 0),
        full_rows_upto(f, n).len() + side_lines(f.hunks, n, false) == cursors_after(f, n).1
            + hunks_rows(f.hunks, n, DiffMode::SideBySide, 0),
    decreases n,
{
    if n > 0 {
        lemma_full_rows_upto_len(f, n - 1);
        assert(hunk_aligned(f, n - 1));
        let before = cursors_after(f, n - 1);
        let hunk = f.hunks[n - 1];
        let kinds = kinds_of(hunk.lines);
        let old_target = fill_target(before.0, hunk.old_start, old_len(f));
        let new_target = fill_target(before.1, hunk.new_start, new_len(f));
        assert(old_target == hunk.old_start - 1);
        assert(new_target == hunk.new_start - 1);
        assert(full_rows_of_hunk(f, n - 1).len() == (old_target - before.0) + pairing(kinds).len());
    }
}

/// In an aligned file whose recorded totals are those of its lines, the
/// full-file layout has the rows that the index counts, less the rows that
/// pairing saves.
pub proof fn lemma_full_rows_len(f: FileDiffView)
    requires
        f.totals_match(),
        aligned(f),
    ensures
        full_rows(f).len() + hunks_overlap(f.hunks, f.hunks.len() as int) == spec_full_line_count(
            f,
        ),
{
    let n = f.hunks.len() as int;
    lemma_full_rows_upto_len(f, n);
    lemma_hunks_rows_by_side(f.hunks, n);
    lemma_rows_with_and_without_headers(f, n);
    let end = cursors_after(f, n);
    assert(tail_target(end.0, old_len(f)) == old_len(f));
    assert(tail_target(end.1, new_len(f)) == new_len(f));
}

/// The hunk headers are one row for each hunk.
proof fn lemma_rows_with_and_without_headers(f: FileDiffView, n: int)
    requires
        0 <= n <= f.hunks.len(),
    ensures
        hunks_rows(f.hunks, n, DiffMode::SideBySide, 1) == hunks_rows(
            f.hunks,
            n,
            DiffMode::SideBySide,
            0,
        ) + n,
    decreases n,
{
    if n > 0 {
        lemma_rows_with_and_without_headers(f, n - 1);
    }
}

/// An aligned file in which pairing saves no row has in the full-file
/// layout exactly the rows that the index counts for it.
pub proof fn lemma_full_file_rows_len(f: FileDiffView)
    requires
        f.totals_match(),
        aligned(f),
        hunks_overlap(f.hunks, f.hunks.len() as int) == 0,
    ensures
        spec_file_rows(f, DiffMode::SideBySideFull).len() == spec_file_line_count(
            f,
            DiffMode::SideBySideFull,
        ),
{
    if !f.collapsed && !f.is_binary {
        lemma_full_rows_len(f);
    }
}

} // verus!
