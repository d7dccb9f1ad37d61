//! The virtual line index: how many rows a list of files occupies in a
//! layout mode, which file owns an absolute row, and where each file starts.
//!
//! Everything here works on row counts alone; no row is built.

use vstd::prelude::*;
use crate::diff::{
    DiffLineView, FileDiff, FileDiffView, Hunk, HunkView, LineType, count_kind, diff_lines_view,
    file_refs_view, hunks_view, kinds_of, lines_of_kind, new_side_count, old_side_count,
};
use crate::pairing::{
    lemma_paired_has_overlap, lemma_shown_is_rows_and_overlap, lemma_unpaired_has_no_overlap,
    overlap, paired_row_count, pairing, shown_from, shown_line_count, shown_lines, unpaired,
};

verus! {

/// Layout of the diff view.
#[derive(Debug, Clone, Copy, PartialEq, Eq, Structural)]
pub enum DiffMode {
    /// Old and new column, hunks only.
    SideBySide,
    /// One column, hunks only.
    Unified,
    /// Old and new column over the whole file.
    SideBySideFull,
}

/// Rows that the lines of one hunk occupy, its header row not counted: one
/// per shown line in the unified layout, one per paired row in the others.
pub open spec fn hunk_rows(lines: Seq<DiffLineView>, mode: DiffMode) -> nat {
    if mode == DiffMode::Unified {
        shown_lines(kinds_of(lines))
    } else {
        pairing(kinds_of(lines)).len()
    }
}

/// Rows of the first `n` hunks, each with `header` rows in front of its
/// lines.
pub open spec fn hunks_rows(hunks: Seq<HunkView>, n: int, mode: DiffMode, header: nat) -> nat
    decreases n,
{
    if n <= 0 || n > hunks.len() {
        0
    } else {
        hunks_rows(hunks, n - 1, mode, header) + header + hunk_rows(hunks[n - 1].lines, mode)
    }
}

/// Both sides of the file are there in full.
pub open spec fn has_full_content(f: FileDiffView) -> bool {
    f.old_content is Some && f.new_content is Some
}

/// Rows of a file in the full-file layout, its header row not counted. With
/// both sides in full it is the length of the longer side and the lines
/// that the other side lacks; else the paired rows of the hunks.
pub open spec fn spec_full_line_count(f: FileDiffView) -> nat {
    if has_full_content(f) {
        let old_len = f.old_content->0.len();
        let new_len = f.new_content->0.len();
        if old_len >= new_len {
            old_len + f.added
        } else {
            new_len + f.removed
        }
    } else {
        hunks_rows(f.hunks, f.hunks.len() as int, DiffMode::SideBySide, 0)
    }
}

/// Rows of a file in a layout: its header row alone when it is collapsed
/// or binary, else the header row and the rows of its content.
pub open spec fn spec_file_line_count(f: FileDiffView, mode: DiffMode) -> nat {
    if f.collapsed || f.is_binary {
        1
    } else if mode == DiffMode::SideBySideFull {
        1 + spec_full_line_count(f)
    } else {
        1 + hunks_rows(f.hunks, f.hunks.len() as int, mode, 1)
    }
}

/// Rows of the first `k` files: the row at which file `k` starts.
pub open spec fn rows_before(files: Seq<FileDiffView>, mode: DiffMode, k: int) -> nat
    decreases k,
{
    if k <= 0 || k > files.len() {
        0
    } else {
        rows_before(files, mode, k - 1) + spec_file_line_count(files[k - 1], mode)
    }
}

/// Rows of all files.
pub open spec fn spec_total_lines(files: Seq<FileDiffView>, mode: DiffMode) -> nat {
    rows_before(files, mode, files.len() as int)
}

/// File `k` owns the absolute row `pos`.
pub open spec fn owns_row(files: Seq<FileDiffView>, mode: DiffMode, k: int, pos: nat) -> bool {
    &&& 0 <= k < files.len()
    &&& rows_before(files, mode, k) <= pos < rows_before(files, mode, k + 1)
}

/// The file that owns row `pos`, found by walking the files from `k` on
/// with `pos` counted from the start of file `k`.
pub open spec fn file_at_from(files: Seq<FileDiffView>, mode: DiffMode, k: int, pos: nat) -> Option<
    int,
>
    decreases files.len() - k,
{
    if k < 0 || k >= files.len() {
        None
    } else if pos < spec_file_line_count(files[k], mode) {
        Some(k)
    } else {
        file_at_from(files, mode, k + 1, (pos - spec_file_line_count(files[k], mode)) as nat)
    }
}

/// The file that owns the absolute row `pos`; none behind the last row.
pub open spec fn spec_file_at(files: Seq<FileDiffView>, mode: DiffMode, pos: nat) -> Option<int> {
    file_at_from(files, mode, 0, pos)
}

/// Largest scroll offset that still fills a viewport of `viewport_height`
/// rows out of `total_rows`.
pub open spec fn spec_clamp_max_scroll(total_rows: nat, viewport_height: nat) -> nat {
    if total_rows >= viewport_height {
        (total_rows - viewport_height) as nat
    } else {
        0
    }
}

/// Start of the first file that begins behind row `scroll`, looking at the
/// files from `k` on; `scroll` itself when there is none.
pub open spec fn next_start_from(files: Seq<FileDiffView>, mode: DiffMode, k: int, scroll: nat) -> nat
    decreases files.len() - k,
{
    if k < 0 || k >= files.len() {
        scroll
    } else if rows_before(files, mode, k) > scroll {
        rows_before(files, mode, k)
    } else {
        next_start_from(files, mode, k + 1, scroll)
    }
}

/// Row to scroll to for the next file: the smallest file start above
/// `scroll`, or `scroll` when no file starts above it.
pub open spec fn spec_next_file(files: Seq<FileDiffView>, mode: DiffMode, scroll: nat) -> nat {
    next_start_from(files, mode, 0, scroll)
}

/// Start of the last file among the first `k` that begins before row
/// `scroll`; 0 when there is none.
pub open spec fn prev_start_upto(files: Seq<FileDiffView>, mode: DiffMode, k: int, scroll: nat) -> nat
    decreases k,
{
    if k <= 0 || k > files.len() {
        0
    } else if rows_before(files, mode, k - 1) < scroll {
        rows_before(files, mode, k - 1)
    } else {
        prev_start_upto(files, mode, k - 1, scroll)
    }
}

/// Row to scroll to for the previous file: the largest file start below
/// `scroll`, or 0 when no file starts below it.
pub open spec fn spec_prev_file(files: Seq<FileDiffView>, mode: DiffMode, scroll: nat) -> nat {
    prev_start_upto(files, mode, files.len() as int, scroll)
}

/// The rows of more hunks are no fewer.
pub proof fn lemma_hunks_rows_monotonic(
    hunks: Seq<HunkView>,
    m: int,
    n: int,
    mode: DiffMode,
    header: nat,
)
    requires
        0 <= m <= n <= hunks.len(),
    ensures
        hunks_rows(hunks, m, mode, header) <= hunks_rows(hunks, n, mode, header),
    decreases n - m,
{
    if m < n {
        lemma_hunks_rows_monotonic(hunks, m, n - 1, mode, header);
    }
}

/// File starts ascend: a later file starts at least one row per file
/// further down.
pub proof fn lemma_rows_before_ascends(files: Seq<FileDiffView>, mode: DiffMode, j: int, k: int)
    requires
        0 <= j <= k <= files.len(),
    ensures
        rows_before(files, mode, j) + (k - j) <= rows_before(files, mode, k),
    decreases k - j,
{
    if j < k {
        lemma_rows_before_ascends(files, mode, j, k - 1);
    }
}

/// The walk from file `k` finds the owner of a row, and finds none exactly
/// behind the last row.
pub proof fn lemma_file_at_from(files: Seq<FileDiffView>, mode: DiffMode, k: int, pos: nat)
    requires
        0 <= k <= files.len(),
    ensures
        match file_at_from(files, mode, k, pos) {
            Some(i) => k <= i && owns_row(files, mode, i, rows_before(files, mode, k) + pos),
            None => rows_before(files, mode, k) + pos >= spec_total_lines(files, mode),
        },
    decreases files.len() - k,
{
    if k < files.len() {
        let count = spec_file_line_count(files[k], mode);
        if pos >= count {
            lemma_file_at_from(files, mode, k + 1, (pos - count) as nat);
        }
    }
}

/// A row has at most one owner.
pub proof fn lemma_owner_unique(files: Seq<FileDiffView>, mode: DiffMode, i: int, j: int, pos: nat)
    requires
        owns_row(files, mode, i, pos),
        owns_row(files, mode, j, pos),
    ensures
        i == j,
{
    if i < j {
        lemma_rows_before_ascends(files, mode, i + 1, j);
    } else if j < i {
        lemma_rows_before_ascends(files, mode, j + 1, i);
    }
}

/// `spec_file_at` names the owner of a row, and every owner is named by it.
pub proof fn lemma_file_at_is_owner(files: Seq<FileDiffView>, mode: DiffMode, pos: nat)
    ensures
        forall|k: int| owns_row(files, mode, k, pos) <==> spec_file_at(files, mode, pos) == Some(k),
        spec_file_at(files, mode, pos) is None <==> pos >= spec_total_lines(files, mode),
{
    lemma_file_at_from(files, mode, 0, pos);
    if let Some(i) = spec_file_at(files, mode, pos) {
        lemma_rows_before_ascends(files, mode, i + 1, files.len() as int);
    }
    assert forall|k: int| owns_row(files, mode, k, pos) implies spec_file_at(files, mode, pos)
        == Some(k) by {
        lemma_rows_before_ascends(files, mode, k + 1, files.len() as int);
        let found = spec_file_at(files, mode, pos);
        lemma_owner_unique(files, mode, k, found->0, pos);
    }
}

/// The row at which a file starts belongs to that file: looking up the
/// owner of the start of file `k` gives `k` back.
pub proof fn lemma_file_at_start_round_trip(files: Seq<FileDiffView>, mode: DiffMode, k: int)
    requires
        0 <= k < files.len(),
    ensures
        spec_file_at(files, mode, rows_before(files, mode, k)) == Some(k),
{
    assert(owns_row(files, mode, k, rows_before(files, mode, k)));
    lemma_file_at_is_owner(files, mode, rows_before(files, mode, k));
}

/// In every hunk the unified layout has as many rows as the two-column
/// layout and the rows that pairing saved.
pub proof fn lemma_unified_rows_exceed_by_overlap(lines: Seq<DiffLineView>)
    ensures
        hunk_rows(lines, DiffMode::Unified) == hunk_rows(lines, DiffMode::SideBySide) + overlap(
            kinds_of(lines),
        ),
{
    lemma_shown_is_rows_and_overlap(kinds_of(lines), 0);
}

/// No hunk of the file has a removed line directly followed by an added
/// line.
pub open spec fn file_unpaired(f: FileDiffView) -> bool {
    forall|h: int| 0 <= h < f.hunks.len() ==> unpaired(kinds_of((#[trigger] f.hunks[h]).lines))
}

/// Hunks without a removed line directly before an added line have the
/// same rows in both hunk layouts.
proof fn lemma_unpaired_hunks_rows(hunks: Seq<HunkView>, n: int)
    requires
        0 <= n <= hunks.len(),
        forall|h: int| 0 <= h < hunks.len() ==> unpaired(kinds_of((#[trigger] hunks[h]).lines)),
    ensures
        hunks_rows(hunks, n, DiffMode::Unified, 1) == hunks_rows(hunks, n, DiffMode::SideBySide, 1),
    decreases n,
{
    if n > 0 {
        lemma_unpaired_hunks_rows(hunks, n - 1);
        let kinds = kinds_of(hunks[n - 1].lines);
        lemma_shown_is_rows_and_overlap(kinds, 0);
        lemma_unpaired_has_no_overlap(kinds, 0);
    }
}

/// The rows that pairing saves in some hunks are saved in all hunks.
proof fn lemma_hunks_overlap_holds(hunks: Seq<HunkView>, n: int, h: int)
    requires
        0 <= h < n <= hunks.len(),
    ensures
        hunks_overlap(hunks, n) >= overlap(kinds_of(hunks[h].lines)),
    decreases n,
{
    if h < n - 1 {
        lemma_hunks_overlap_holds(hunks, n - 1, h);
    }
}

/// A file has as many rows in the unified layout as in the two-column
/// layout of its hunks exactly when it is collapsed or binary or none of
/// its removed lines is directly followed by an added line: pairing changes
/// the number of rows where it pairs, and nowhere else.
pub proof fn lemma_unified_and_side_by_side_counts_agree(f: FileDiffView)
    ensures
        spec_file_line_count(f, DiffMode::Unified) == spec_file_line_count(f, DiffMode::SideBySide)
            <==> f.collapsed || f.is_binary || file_unpaired(f),
{
    let n = f.hunks.len() as int;
    if file_unpaired(f) {
        lemma_unpaired_hunks_rows(f.hunks, n);
    } else if !f.collapsed && !f.is_binary {
        let h = choose|h: int| 0 <= h < f.hunks.len() && !unpaired(kinds_of((#[trigger] f.hunks[h]).lines));
        let kinds = kinds_of(f.hunks[h].lines);
        let (i, j) = choose|i: int, j: int|
            0 <= i && j == i + 1 && j < kinds.len() && #[trigger] kinds[i] == LineType::Removed && !(
            #[trigger] kinds[j] != LineType::Added);
        lemma_paired_has_overlap(kinds, 0, i);
        lemma_hunks_overlap_holds(f.hunks, n, h);
        lemma_hunks_rows_by_side(f.hunks, n);
    }
}

/// The same over a list of files.
pub proof fn lemma_unified_and_side_by_side_totals_agree(files: Seq<FileDiffView>, k: int)
    requires
        0 <= k <= files.len(),
        forall|i: int| 0 <= i < files.len() ==> file_unpaired(#[trigger] files[i]),
    ensures
        rows_before(files, DiffMode::Unified, k) == rows_before(files, DiffMode::SideBySide, k),
    decreases k,
{
    if k > 0 {
        lemma_unified_and_side_by_side_totals_agree(files, k - 1);
        lemma_unified_and_side_by_side_counts_agree(files[k - 1]);
    }
}

/// Rows that pairing saves in the first `n` hunks.
pub open spec fn hunks_overlap(hunks: Seq<HunkView>, n: int) -> nat
    decreases n,
{
    if n <= 0 || n > hunks.len() {
        0
    } else {
        hunks_overlap(hunks, n - 1) + overlap(kinds_of(hunks[n - 1].lines))
    }
}

/// Lines of the first `n` hunks that lie on the old side, or on the new
/// side.
pub open spec fn side_lines(hunks: Seq<HunkView>, n: int, old_side: bool) -> nat
    decreases n,
{
    if n <= 0 || n > hunks.len() {
        0
    } else {
        let kinds = kinds_of(hunks[n - 1].lines);
        side_lines(hunks, n - 1, old_side) + if old_side {
            old_side_count(kinds, kinds.len() as int)
        } else {
            new_side_count(kinds, kinds.len() as int)
        }
    }
}

/// Lines of the longer side that lie in no hunk.
pub open spec fn lines_outside_hunks(f: FileDiffView) -> int {
    let old_len = f.old_content->0.len();
    let new_len = f.new_content->0.len();
    if old_len >= new_len {
        old_len - side_lines(f.hunks, f.hunks.len() as int, true)
    } else {
        new_len - side_lines(f.hunks, f.hunks.len() as int, false)
    }
}

/// The shown lines are the context, removed and added lines.
proof fn lemma_shown_by_kind(kinds: Seq<LineType>, n: int)
    requires
        0 <= n <= kinds.len(),
    ensures
        shown_from(kinds, 0) == count_kind(kinds, n, LineType::Context) + count_kind(
            kinds,
            n,
            LineType::Removed,
        ) + count_kind(kinds, n, LineType::Added) + shown_from(kinds, n),
    decreases n,
{
    if n > 0 {
        lemma_shown_by_kind(kinds, n - 1);
    }
}

/// The two-column rows of the hunks and the rows that pairing saved are
/// the hunk headers, the lines of one side and the lines that only the
/// other side has.
pub proof fn lemma_hunks_rows_by_side(hunks: Seq<HunkView>, n: int)
    requires
        0 <= n <= hunks.len(),
    ensures
        hunks_rows(hunks, n, DiffMode::SideBySide, 1) + hunks_overlap(hunks, n) == n + side_lines(
            hunks,
            n,
            true,
        ) + lines_of_kind(hunks, n, LineType::Added),
        hunks_rows(hunks, n, DiffMode::SideBySide, 1) + hunks_overlap(hunks, n) == n + side_lines(
            hunks,
            n,
            false,
        ) + lines_of_kind(hunks, n, LineType::Removed),
        hunks_rows(hunks, n, DiffMode::Unified, 1) == hunks_rows(hunks, n, DiffMode::SideBySide, 1)
            + hunks_overlap(hunks, n),
    decreases n,
{
    if n > 0 {
        lemma_hunks_rows_by_side(hunks, n - 1);
        let kinds = kinds_of(hunks[n - 1].lines);
        lemma_shown_is_rows_and_overlap(kinds, 0);
        lemma_shown_by_kind(kinds, kinds.len() as int);
    }
}

/// By how much the full-file layout of a file with both sides in full,
/// whose recorded totals are those of its lines, exceeds the hunk layouts:
/// by the lines outside the hunks and the rows that pairing saved, less one
/// row for each hunk header.
pub proof fn lemma_full_count_versus_hunk_count(f: FileDiffView)
    requires
        f.totals_match(),
        has_full_content(f),
        !f.collapsed,
        !f.is_binary,
    ensures
        spec_file_line_count(f, DiffMode::SideBySideFull) - spec_file_line_count(
            f,
            DiffMode::SideBySide,
        ) == lines_outside_hunks(f) + hunks_overlap(f.hunks, f.hunks.len() as int)
            - f.hunks.len(),
        spec_file_line_count(f, DiffMode::SideBySideFull) - spec_file_line_count(
            f,
            DiffMode::Unified,
        ) == lines_outside_hunks(f) - f.hunks.len(),
{
    lemma_hunks_rows_by_side(f.hunks, f.hunks.len() as int);
}

/// A file with both sides in full, whose recorded totals are those of its
/// lines, has at least as many rows in the full-file layout as in the
/// two-column layout of its hunks exactly when it is collapsed or binary or
/// has, for each hunk, a line outside the hunks on its longer side or a row
/// that pairing saves: the lines outside the hunks add rows, the hunk
/// headers are left out. Against the unified layout only the lines outside
/// the hunks count.
pub proof fn lemma_full_count_covers_hunk_count(f: FileDiffView)
    requires
        f.totals_match(),
        has_full_content(f),
    ensures
        spec_file_line_count(f, DiffMode::SideBySideFull) >= spec_file_line_count(
            f,
            DiffMode::SideBySide,
        ) <==> f.collapsed || f.is_binary || lines_outside_hunks(f) + hunks_overlap(
            f.hunks,
            f.hunks.len() as int,
        ) >= f.hunks.len(),
        spec_file_line_count(f, DiffMode::SideBySideFull) >= spec_file_line_count(
            f,
            DiffMode::Unified,
        ) <==> f.collapsed || f.is_binary || lines_outside_hunks(f) >= f.hunks.len(),
{
    if !f.collapsed && !f.is_binary {
        lemma_full_count_versus_hunk_count(f);
    }
}

/// The view of a hunk's lines, from the hunk as stored.
proof fn lemma_hunk_lines_view(hunks: Seq<Hunk>, h: int)
    requires
        0 <= h < hunks.len(),
    ensures
        hunks_view(hunks)[h].lines == diff_lines_view(hunks[h].lines@),
{
}

/// Rows of a file in the full-file layout, its header row not counted.
pub fn full_line_count(diff: &FileDiff) -> (count: usize)
    requires
        spec_full_line_count(diff@) <= usize::MAX,
    ensures
        count == spec_full_line_count(diff@),
{
    match (&diff.old_content, &diff.new_content) {
        (Some(old_lines), Some(new_lines)) => {
            let old_len = old_lines.len();
            let new_len = new_lines.len();
            assert(diff@.old_content->0.len() == old_len);
            assert(diff@.new_content->0.len() == new_len);
            if old_len >= new_len {
                old_len + diff.added
            } else {
                new_len + diff.removed
            }
        },
        _ => hunk_rows_total(diff, DiffMode::SideBySide, 0),
    }
}

/// Rows of all hunks of a file, each with `header` rows in front of its
/// lines.
fn hunk_rows_total(diff: &FileDiff, mode: DiffMode, header: usize) -> (count: usize)
    requires
        hunks_rows(diff@.hunks, diff@.hunks.len() as int, mode, header as nat) <= usize::MAX,
    ensures
        count == hunks_rows(diff@.hunks, diff@.hunks.len() as int, mode, header as nat),
{
    let ghost hunks = diff@.hunks;
    let mut total: usize = 0;
    let mut h: usize = 0;
    while h < diff.hunks.len()
        invariant
            h <= diff.hunks@.len(),
            hunks == diff@.hunks,
            hunks.len() == diff.hunks@.len(),
            total == hunks_rows(hunks, h as int, mode, header as nat),
            hunks_rows(hunks, hunks.len() as int, mode, header as nat) <= usize::MAX,
        decreases diff.hunks@.len() - h,
    {
        let lines = diff.hunks[h].lines.as_slice();
        let rows = match mode {
            DiffMode::Unified => shown_line_count(lines),
            _ => paired_row_count(lines),
        };
        proof {
            lemma_hunk_lines_view(diff.hunks@, h as int);
            lemma_hunks_rows_monotonic(hunks, h as int + 1, hunks.len() as int, mode, header as nat);
        }
        total = total + header + rows;
        h += 1;
    }
    total
}

/// Rows that a file occupies in a layout.
pub fn file_line_count(diff: &FileDiff, mode: DiffMode) -> (count: usize)
    requires
        spec_file_line_count(diff@, mode) <= usize::MAX,
    ensures
        count == spec_file_line_count(diff@, mode),
        count >= 1,
{
    if diff.collapsed || diff.is_binary {
        return 1;
    }
    match mode {
        DiffMode::SideBySideFull => 1 + full_line_count(diff),
        _ => 1 + hunk_rows_total(diff, mode, 1),
    }
}

/// Rows that a list of files occupies in a layout.
pub fn calculate_total_lines(diffs: &[&FileDiff], mode: DiffMode) -> (total: usize)
    requires
        spec_total_lines(file_refs_view(diffs@), mode) <= usize::MAX,
    ensures
        total == spec_total_lines(file_refs_view(diffs@), mode),
{
    let ghost files = file_refs_view(diffs@);
    proof {
        lemma_rows_before_ascends(files, mode, 0, files.len() as int);
    }
    scroll_offset_of(diffs, mode, diffs.len())
}

/// Row at which file `file_index` starts: the rows of the files before it.
/// An index behind the last file gives the rows of all files.
pub fn scroll_offset_of(diffs: &[&FileDiff], mode: DiffMode, file_index: usize) -> (offset: usize)
    requires
        spec_total_lines(file_refs_view(diffs@), mode) <= usize::MAX,
    ensures
        file_index <= diffs@.len() ==> offset == rows_before(
            file_refs_view(diffs@),
            mode,
            file_index as int,
        ),
        file_index > diffs@.len() ==> offset == spec_total_lines(file_refs_view(diffs@), mode),
{
    let ghost files = file_refs_view(diffs@);
    let mut offset: usize = 0;
    let mut i: usize = 0;
    while i < diffs.len() && i < file_index
        invariant
            i <= diffs@.len(),
            i <= file_index,
            files == file_refs_view(diffs@),
            offset == rows_before(files, mode, i as int),
            spec_total_lines(files, mode) <= usize::MAX,
        decreases diffs@.len() - i,
    {
        proof {
            lemma_rows_before_ascends(files, mode, i as int + 1, files.len() as int);
        }
        let count = file_line_count(diffs[i], mode);
        offset = offset + count;
        i += 1;
    }
    offset
}

/// The file that owns the absolute row `scroll_pos`; none when the row lies
/// behind the last row.
pub fn file_at(diffs: &[&FileDiff], mode: DiffMode, scroll_pos: usize) -> (owner: Option<usize>)
    requires
        spec_total_lines(file_refs_view(diffs@), mode) <= usize::MAX,
    ensures
        match owner {
            Some(k) => spec_file_at(file_refs_view(diffs@), mode, scroll_pos as nat) == Some(
                k as int,
            ) && owns_row(file_refs_view(diffs@), mode, k as int, scroll_pos as nat),
            None => spec_file_at(file_refs_view(diffs@), mode, scroll_pos as nat) is None
                && scroll_pos >= spec_total_lines(file_refs_view(diffs@), mode),
        },
{
    let ghost files = file_refs_view(diffs@);
    proof {
        lemma_file_at_is_owner(files, mode, scroll_pos as nat);
    }
    let mut line: usize = 0;
    let mut i: usize = 0;
    while i < diffs.len()
        invariant
            i <= diffs@.len(),
            files == file_refs_view(diffs@),
            line == rows_before(files, mode, i as int),
            line <= scroll_pos,
            spec_total_lines(files, mode) <= usize::MAX,
            forall|k: int| owns_row(files, mode, k, scroll_pos as nat) <==> spec_file_at(
                files,
                mode,
                scroll_pos as nat,
            ) == Some(k),
        decreases diffs@.len() - i,
    {
        proof {
            lemma_rows_before_ascends(files, mode, i as int + 1, files.len() as int);
        }
        let count = file_line_count(diffs[i], mode);
        if scroll_pos - line < count {
            assert(owns_row(files, mode, i as int, scroll_pos as nat));
            return Some(i);
        }
        line = line + count;
        i += 1;
    }
    None
}

/// Largest scroll offset that still fills the viewport.
pub fn clamp_max_scroll(total_rows: usize, viewport_height: usize) -> (max: usize)
    ensures
        max == spec_clamp_max_scroll(total_rows as nat, viewport_height as nat),
{
    total_rows.saturating_sub(viewport_height)
}

/// Row to scroll to for the next file: the start of the first file that
/// begins behind `scroll`; `scroll` when there is none.
pub fn next_file(diffs: &[&FileDiff], mode: DiffMode, scroll: usize) -> (target: usize)
    requires
        spec_total_lines(file_refs_view(diffs@), mode) <= usize::MAX,
    ensures
        target == spec_next_file(file_refs_view(diffs@), mode, scroll as nat),
        target >= scroll,
{
    let ghost files = file_refs_view(diffs@);
    let mut line: usize = 0;
    let mut i: usize = 0;
    while i < diffs.len()
        invariant
            i <= diffs@.len(),
            files == file_refs_view(diffs@),
            line == rows_before(files, mode, i as int),
            spec_total_lines(files, mode) <= usize::MAX,
            next_start_from(files, mode, i as int, scroll as nat) == spec_next_file(
                files,
                mode,
                scroll as nat,
            ),
        decreases diffs@.len() - i,
    {
        if line > scroll {
            return line;
        }
        proof {
            lemma_rows_before_ascends(files, mode, i as int + 1, files.len() as int);
        }
        let count = file_line_count(diffs[i], mode);
        line = line + count;
        i += 1;
    }
    scroll
}

/// Row to scroll to for the previous file: the start of the last file that
/// begins before `scroll`; 0 when there is none.
pub fn prev_file(diffs: &[&FileDiff], mode: DiffMode, scroll: usize) -> (target: usize)
    requires
        spec_total_lines(file_refs_view(diffs@), mode) <= usize::MAX,
    ensures
        target == spec_prev_file(file_refs_view(diffs@), mode, scroll as nat),
        target <= scroll,
{
    let ghost files = file_refs_view(diffs@);
    let mut best: usize = 0;
    let mut line: usize = 0;
    let mut i: usize = 0;
    while i < diffs.len()
        invariant
            i <= diffs@.len(),
            files == file_refs_view(diffs@),
            line == rows_before(files, mode, i as int),
            spec_total_lines(files, mode) <= usize::MAX,
            best == prev_start_upto(files, mode, i as int, scroll as nat),
            best <= scroll,
        decreases diffs@.len() - i,
    {
        if line < scroll {
            best = line;
        }
        proof {
            lemma_rows_before_ascends(files, mode, i as int + 1, files.len() as int);
            lemma_rows_before_ascends(files, mode, 0, i as int);
            lemma_prev_start_step(files, mode, i as int + 1, scroll as nat);
        }
        let count = file_line_count(diffs[i], mode);
        line = line + count;
        i += 1;
    }
    best
}

/// Looking at one file more, the previous start is that file's start when
/// it lies below `scroll`; else it is unchanged, and then no later file
/// starts below `scroll` either.
proof fn lemma_prev_start_step(files: Seq<FileDiffView>, mode: DiffMode, k: int, scroll: nat)
    requires
        0 < k <= files.len(),
    ensures
        prev_start_upto(files, mode, k, scroll) == if rows_before(files, mode, k - 1) < scroll {
            rows_before(files, mode, k - 1)
        } else {
            prev_start_upto(files, mode, k - 1, scroll)
        },
{
}

} // verus!
