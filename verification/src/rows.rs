//! The row aligner: the display rows of one file in each layout.
//!
//! A row names what it shows by position: a hunk and a line of the file,
//! or a line of the file's full content. Text and colours are looked up by
//! whoever paints the row.

use vstd::prelude::*;
use crate::diff::{
    DiffLine, FileDiff, FileDiffView, HunkView, LineType, diff_lines_view, file_refs_view,
    kinds_of, lemma_count_kind_bound, new_side_count, old_side_count,
};
use crate::index::{
    DiffMode, file_line_count, has_full_content, hunks_rows, lemma_file_at_is_owner,
    lemma_rows_before_ascends, owns_row, rows_before, spec_file_at, spec_file_line_count,
    spec_total_lines,
};
use crate::pairing::{
    index_pair, index_pairs, lemma_pairing_in_range, pair_indices, pairing, shown_from,
};

verus! {

/// One line shown in a row.
#[derive(Debug, Clone, Copy, PartialEq, Eq)]
pub struct Cell {
    /// Hunk and line of the diff line shown; `None` where the line is taken
    /// from the full content alone.
    pub line: Option<(usize, usize)>,
    /// In the hunk layouts the position of the line among all hunk lines of
    /// the file; in the full-file layout the position of the line in the
    /// full content of its side.
    pub index: usize,
}

/// One display row of a file.
#[derive(Debug, Clone, Copy, PartialEq, Eq)]
pub enum Row {
    /// The row that names the file.
    FileHeader,
    /// The row that names a hunk.
    HunkHeader { hunk: usize },
    /// One line over the whole width.
    Line { cell: Cell },
    /// An old and a new column; a column without a line is blank.
    Pair { left: Option<Cell>, right: Option<Cell> },
    /// A row without content.
    Blank,
}

/// A cell as a mathematical value.
pub struct CellView {
    pub line: Option<(int, int)>,
    pub index: int,
}

/// A row as a mathematical value.
pub enum RowView {
    FileHeader,
    HunkHeader { hunk: int },
    Line { cell: CellView },
    Pair { left: Option<CellView>, right: Option<CellView> },
    Blank,
}

impl View for Cell {
    type V = CellView;

    open spec fn view(&self) -> CellView {
        CellView {
            line: match self.line {
                Some((h, l)) => Some((h as int, l as int)),
                None => None,
            },
            index: self.index as int,
        }
    }
}

/// The view of an optional cell.
pub open spec fn cell_view(c: Option<Cell>) -> Option<CellView> {
    match c {
        Some(c) => Some(c@),
        None => None,
    }
}

impl View for Row {
    type V = RowView;

    open spec fn view(&self) -> RowView {
        match *self {
            Row::FileHeader => RowView::FileHeader,
            Row::HunkHeader { hunk } => RowView::HunkHeader { hunk: hunk as int },
            Row::Line { cell } => RowView::Line { cell: cell@ },
            Row::Pair { left, right } => RowView::Pair {
                left: cell_view(left),
                right: cell_view(right),
            },
            Row::Blank => RowView::Blank,
        }
    }
}

/// The views of a sequence of rows.
pub open spec fn rows_view(rows: Seq<Row>) -> Seq<RowView> {
    rows.map_values(|r: Row| r@)
}

/// Number of lines in the first `h` hunks, header lines included.
pub open spec fn lines_before(hunks: Seq<HunkView>, h: int) -> nat
    decreases h,
{
    if h <= 0 || h > hunks.len() {
        0
    } else {
        lines_before(hunks, h - 1) + hunks[h - 1].lines.len()
    }
}

/// The cell of line `l` of hunk `h` in a hunk layout, where `base` lines
/// precede the hunk.
pub open spec fn hunk_cell(h: int, l: int, base: int) -> CellView {
    CellView { line: Some((h, l)), index: base + l }
}

/// The cell of an optional line of hunk `h` in a hunk layout.
pub open spec fn opt_hunk_cell(h: int, l: Option<int>, base: int) -> Option<CellView> {
    match l {
        Some(l) => Some(hunk_cell(h, l, base)),
        None => None,
    }
}

/// Unified rows of the lines of hunk `h` from line `start` on: one row for
/// each line that is no header line.
pub open spec fn unified_rows_from(kinds: Seq<LineType>, start: int, h: int, base: int) -> Seq<
    RowView,
>
    decreases kinds.len() - start,
{
    if start < 0 || start >= kinds.len() {
        Seq::empty()
    } else if kinds[start] == LineType::Header {
        unified_rows_from(kinds, start + 1, h, base)
    } else {
        seq![RowView::Line { cell: hunk_cell(h, start, base) }] + unified_rows_from(
            kinds,
            start + 1,
            h,
            base,
        )
    }
}

/// Two-column rows of the lines of hunk `h`: one row for each row of the
/// pairing.
pub open spec fn split_rows(kinds: Seq<LineType>, h: int, base: int) -> Seq<RowView> {
    pairing(kinds).map_values(
        |p: (Option<int>, Option<int>)|
            RowView::Pair { left: opt_hunk_cell(h, p.0, base), right: opt_hunk_cell(h, p.1, base) },
    )
}

/// Rows of the lines of hunk `h` in a hunk layout.
pub open spec fn hunk_line_rows(hunks: Seq<HunkView>, h: int, mode: DiffMode) -> Seq<RowView> {
    let kinds = kinds_of(hunks[h].lines);
    let base = lines_before(hunks, h) as int;
    if mode == DiffMode::Unified {
        unified_rows_from(kinds, 0, h, base)
    } else {
        split_rows(kinds, h, base)
    }
}

/// Rows of the first `n` hunks in a hunk layout, each hunk with its header
/// row in front where `header` is set.
pub open spec fn hunk_only_rows(hunks: Seq<HunkView>, n: int, mode: DiffMode, header: bool) -> Seq<
    RowView,
>
    decreases n,
{
    if n <= 0 || n > hunks.len() {
        Seq::empty()
    } else {
        hunk_only_rows(hunks, n - 1, mode, header) + (if header {
            seq![RowView::HunkHeader { hunk: n - 1 }]
        } else {
            Seq::empty()
        }) + hunk_line_rows(hunks, n - 1, mode)
    }
}

/// More hunks have no fewer lines.
pub proof fn lemma_lines_before_monotonic(hunks: Seq<HunkView>, m: int, n: int)
    requires
        0 <= m <= n <= hunks.len(),
    ensures
        lines_before(hunks, m) <= lines_before(hunks, n),
    decreases n - m,
{
    if m < n {
        lemma_lines_before_monotonic(hunks, m, n - 1);
    }
}

/// Appends the unified rows of the lines of hunk `h`.
fn push_unified_rows(rows: &mut Vec<Row>, lines: &[DiffLine], h: usize, base: usize)
    requires
        base + lines@.len() <= usize::MAX,
    ensures
        rows_view(final(rows)@) == rows_view(old(rows)@) + unified_rows_from(
            kinds_of(diff_lines_view(lines@)),
            0,
            h as int,
            base as int,
        ),
{
    let ghost kinds = kinds_of(diff_lines_view(lines@));
    let ghost before = rows_view(rows@);
    let mut l: usize = 0;
    assert(rows_view(rows@) + Seq::<RowView>::empty() =~= rows_view(rows@));
    while l < lines.len()
        invariant
            l <= lines@.len(),
            base + lines@.len() <= usize::MAX,
            kinds == kinds_of(diff_lines_view(lines@)),
            exists|done: Seq<RowView>|
                #![trigger before + done]
                rows_view(rows@) == before + done && done + unified_rows_from(
                    kinds,
                    l as int,
                    h as int,
                    base as int,
                ) == unified_rows_from(kinds, 0, h as int, base as int),
        decreases lines@.len() - l,
    {
        let ghost done = choose|done: Seq<RowView>|
            #![trigger before + done]
            rows_view(rows@) == before + done && done + unified_rows_from(
                kinds,
                l as int,
                h as int,
                base as int,
            ) == unified_rows_from(kinds, 0, h as int, base as int);
        let ghost so_far = rows@;
        match lines[l].line_type {
            LineType::Header => {
                assert(rows_view(rows@) == before + done);
            },
            _ => {
                let row = Row::Line { cell: Cell { line: Some((h, l)), index: base + l } };
                rows.push(row);
                proof {
                    let next = done.push(row@);
                    assert(rows_view(rows@) =~= rows_view(so_far).push(row@));
                    assert(before + next =~= (before + done).push(row@));
                    assert(next + unified_rows_from(kinds, l as int + 1, h as int, base as int)
                        =~= done + unified_rows_from(kinds, l as int, h as int, base as int));
                    assert(rows_view(rows@) == before + next);
                }
            },
        }
        l += 1;
    }
    proof {
        let done = choose|done: Seq<RowView>|
            #![trigger before + done]
            rows_view(rows@) == before + done && done + unified_rows_from(
                kinds,
                l as int,
                h as int,
                base as int,
            ) == unified_rows_from(kinds, 0, h as int, base as int);
        assert(done + Seq::<RowView>::empty() =~= done);
    }
}

/// Appends the two-column rows of the lines of hunk `h`.
fn push_split_rows(rows: &mut Vec<Row>, lines: &[DiffLine], h: usize, base: usize)
    requires
        base + lines@.len() <= usize::MAX,
    ensures
        rows_view(final(rows)@) == rows_view(old(rows)@) + split_rows(
            kinds_of(diff_lines_view(lines@)),
            h as int,
            base as int,
        ),
{
    let ghost kinds = kinds_of(diff_lines_view(lines@));
    let ghost before = rows_view(rows@);
    let ghost target = split_rows(kinds, h as int, base as int);
    let indices = pair_indices(lines);
    proof {
        lemma_pairing_in_range(kinds, 0);
        assert(index_pairs(indices@).len() == indices@.len());
        assert(before + target.take(0) =~= before);
    }
    let mut r: usize = 0;
    while r < indices.len()
        invariant
            r <= indices@.len(),
            base + lines@.len() <= usize::MAX,
            kinds == kinds_of(diff_lines_view(lines@)),
            target == split_rows(kinds, h as int, base as int),
            index_pairs(indices@) == pairing(kinds),
            target.len() == indices@.len(),
            forall|q: int|
                0 <= q < pairing(kinds).len() ==> {
                    let p = #[trigger] pairing(kinds)[q];
                    &&& p.0 matches Some(i) ==> 0 <= i < lines@.len()
                    &&& p.1 matches Some(i) ==> 0 <= i < lines@.len()
                },
            rows_view(rows@) == before + target.take(r as int),
        decreases indices@.len() - r,
    {
        let ghost so_far = rows@;
        let (left, right) = indices[r];
        assert(index_pairs(indices@)[r as int] == index_pair(indices@[r as int]));
        assert(pairing(kinds)[r as int] == index_pair((left, right)));
        let left_cell = match left {
            Some(l) => Some(Cell { line: Some((h, l)), index: base + l }),
            None => None,
        };
        let right_cell = match right {
            Some(l) => Some(Cell { line: Some((h, l)), index: base + l }),
            None => None,
        };
        let row = Row::Pair { left: left_cell, right: right_cell };
        rows.push(row);
        proof {
            assert(row@ == target[r as int]);
            assert(rows_view(rows@) =~= rows_view(so_far).push(row@));
            assert(target.take(r as int + 1) =~= target.take(r as int).push(target[r as int]));
            assert(before + target.take(r as int + 1) =~= (before + target.take(r as int)).push(
                row@,
            ));
        }
        r += 1;
    }
    assert(target.take(r as int) =~= target);
}

/// The lines of hunk `h`, and their view.
fn hunk_lines(diff: &FileDiff, h: usize) -> (lines: &[DiffLine])
    requires
        h < diff.hunks@.len(),
    ensures
        diff_lines_view(lines@) == diff@.hunks[h as int].lines,
        lines@.len() == diff@.hunks[h as int].lines.len(),
{
    diff.hunks[h].lines.as_slice()
}

/// Appends the rows of all hunks in a hunk layout, each hunk with its
/// header row in front where `header` is set.
fn push_hunk_only_rows(rows: &mut Vec<Row>, diff: &FileDiff, mode: DiffMode, header: bool)
    requires
        lines_before(diff@.hunks, diff@.hunks.len() as int) <= usize::MAX,
    ensures
        rows_view(final(rows)@) == rows_view(old(rows)@) + hunk_only_rows(
            diff@.hunks,
            diff@.hunks.len() as int,
            mode,
            header,
        ),
{
    let ghost hunks = diff@.hunks;
    let ghost before = rows_view(rows@);
    let mut base: usize = 0;
    let mut h: usize = 0;
    assert(before + hunk_only_rows(hunks, 0, mode, header) =~= before);
    while h < diff.hunks.len()
        invariant
            h <= diff.hunks@.len(),
            hunks == diff@.hunks,
            hunks.len() == diff.hunks@.len(),
            base == lines_before(hunks, h as int),
            lines_before(hunks, hunks.len() as int) <= usize::MAX,
            rows_view(rows@) == before + hunk_only_rows(hunks, h as int, mode, header),
        decreases diff.hunks@.len() - h,
    {
        let lines = hunk_lines(diff, h);
        proof {
            lemma_lines_before_monotonic(hunks, h as int + 1, hunks.len() as int);
        }
        let ghost at_start = rows_view(rows@);
        if header {
            let ghost so_far = rows@;
            rows.push(Row::HunkHeader { hunk: h });
            assert(rows_view(rows@) =~= rows_view(so_far).push(RowView::HunkHeader { hunk: h as int }));
        }
        let ghost with_header = rows_view(rows@);
        match mode {
            DiffMode::Unified => push_unified_rows(rows, lines, h, base),
            _ => push_split_rows(rows, lines, h, base),
        }
        proof {
            let head = if header {
                seq![RowView::HunkHeader { hunk: h as int }]
            } else {
                Seq::<RowView>::empty()
            };
            assert(with_header =~= at_start + head);
            assert(rows_view(rows@) == with_header + hunk_line_rows(hunks, h as int, mode));
            assert(rows_view(rows@) =~= before + hunk_only_rows(hunks, h as int + 1, mode, header));
        }
        base = base + lines.len();
        h += 1;
    }
}

/// Length of the old side's full content; 0 where it is absent.
pub open spec fn old_len(f: FileDiffView) -> nat {
    match f.old_content {
        Some(c) => c.len(),
        None => 0,
    }
}

/// Length of the new side's full content; 0 where it is absent.
pub open spec fn new_len(f: FileDiffView) -> nat {
    match f.new_content {
        Some(c) => c.len(),
        None => 0,
    }
}

/// Where a content cursor stands when a hunk that starts at the 1-based
/// line `start` begins: on the line before the hunk's first. A start that
/// lies before the cursor or behind the content leaves the cursor where it
/// is.
pub open spec fn fill_target(cursor: nat, start: nat, len: nat) -> nat {
    let target = if start >= 1 {
        (start - 1) as nat
    } else {
        0nat
    };
    if cursor <= target && target <= len {
        target
    } else {
        cursor
    }
}

/// The cell of line `i` of a side's full content.
pub open spec fn content_cell(i: int) -> CellView {
    CellView { line: None, index: i }
}

/// The cell of row `i` of a stretch of content lines `from..to`; none behind
/// the stretch.
pub open spec fn fill_cell(from: int, to: int, i: int) -> Option<CellView> {
    if from + i < to {
        Some(content_cell(from + i))
    } else {
        None
    }
}

/// Rows that show the content lines `old_from..old_to` on the left and
/// `new_from..new_to` on the right, one line of each side per row; the
/// shorter side ends in blank columns.
pub open spec fn fill_rows(old_from: int, old_to: int, new_from: int, new_to: int) -> Seq<RowView> {
    Seq::new(
        (if old_to - old_from >= new_to - new_from {
            old_to - old_from
        } else {
            new_to - new_from
        }) as nat,
        |i: int|
            RowView::Pair {
                left: fill_cell(old_from, old_to, i),
                right: fill_cell(new_from, new_to, i),
            },
    )
}

/// The cell of a hunk line in the full-file layout: its index is the place
/// of the line in the full content, `cursor` for the first line of its side
/// in the hunk.
pub open spec fn replay_cell(
    kinds: Seq<LineType>,
    h: int,
    l: Option<int>,
    cursor: int,
    old_side: bool,
) -> Option<CellView> {
    match l {
        Some(l) => Some(
            CellView {
                line: Some((h, l)),
                index: cursor + if old_side {
                    old_side_count(kinds, l)
                } else {
                    new_side_count(kinds, l)
                },
            },
        ),
        None => None,
    }
}

/// Rows of the lines of hunk `h` in the full-file layout: the rows of the
/// pairing, each line at its place in the full content.
pub open spec fn replay_rows(kinds: Seq<LineType>, h: int, old_cursor: int, new_cursor: int) -> Seq<
    RowView,
> {
    pairing(kinds).map_values(
        |p: (Option<int>, Option<int>)|
            RowView::Pair {
                left: replay_cell(kinds, h, p.0, old_cursor, true),
                right: replay_cell(kinds, h, p.1, new_cursor, false),
            },
    )
}

/// The content cursors (old, new) behind the first `n` hunks.
pub open spec fn cursors_after(f: FileDiffView, n: int) -> (nat, nat)
    decreases n,
{
    if n <= 0 || n > f.hunks.len() {
        (0, 0)
    } else {
        let before = cursors_after(f, n - 1);
        let hunk = f.hunks[n - 1];
        let kinds = kinds_of(hunk.lines);
        (
            fill_target(before.0, hunk.old_start, old_len(f)) + old_side_count(
                kinds,
                kinds.len() as int,
            ),
            fill_target(before.1, hunk.new_start, new_len(f)) + new_side_count(
                kinds,
                kinds.len() as int,
            ),
        )
    }
}

/// Full-file rows of hunk `h`: the content between the cursors and the
/// hunk's start, then the hunk's lines.
pub open spec fn full_rows_of_hunk(f: FileDiffView, h: int) -> Seq<RowView> {
    let before = cursors_after(f, h);
    let hunk = f.hunks[h];
    let old_target = fill_target(before.0, hunk.old_start, old_len(f));
    let new_target = fill_target(before.1, hunk.new_start, new_len(f));
    fill_rows(before.0 as int, old_target as int, before.1 as int, new_target as int)
        + replay_rows(kinds_of(hunk.lines), h, old_target as int, new_target as int)
}

/// Full-file rows of the first `n` hunks.
pub open spec fn full_rows_upto(f: FileDiffView, n: int) -> Seq<RowView>
    decreases n,
{
    if n <= 0 || n > f.hunks.len() {
        Seq::empty()
    } else {
        full_rows_upto(f, n - 1) + full_rows_of_hunk(f, n - 1)
    }
}

/// What is left of a side's content behind the cursor: the end of the rows
/// that close the file.
pub open spec fn tail_target(cursor: nat, len: nat) -> nat {
    if cursor <= len {
        len
    } else {
        cursor
    }
}

/// Rows of a file with both sides in full, its header row not counted: the
/// rows of each hunk in order, then the content behind the last hunk.
pub open spec fn full_rows(f: FileDiffView) -> Seq<RowView> {
    let end = cursors_after(f, f.hunks.len() as int);
    full_rows_upto(f, f.hunks.len() as int) + fill_rows(
        end.0 as int,
        tail_target(end.0, old_len(f)) as int,
        end.1 as int,
        tail_target(end.1, new_len(f)) as int,
    )
}

/// The rows of a file in a layout. A collapsed or binary file is its
/// header row. In the full-file layout a file that lacks a side in full
/// shows the paired rows of its hunks.
pub open spec fn spec_file_rows(f: FileDiffView, mode: DiffMode) -> Seq<RowView> {
    if f.collapsed || f.is_binary {
        seq![RowView::FileHeader]
    } else if mode == DiffMode::SideBySideFull {
        if has_full_content(f) {
            seq![RowView::FileHeader] + full_rows(f)
        } else {
            seq![RowView::FileHeader] + hunk_only_rows(
                f.hunks,
                f.hunks.len() as int,
                DiffMode::SideBySide,
                false,
            )
        }
    } else {
        seq![RowView::FileHeader] + hunk_only_rows(f.hunks, f.hunks.len() as int, mode, true)
    }
}

/// The largest position that a cell of the file can name: the longer side
/// and all hunk lines.
pub open spec fn index_bound(f: FileDiffView) -> nat {
    (if old_len(f) >= new_len(f) {
        old_len(f)
    } else {
        new_len(f)
    }) + lines_before(f.hunks, f.hunks.len() as int)
}

/// The cursors lie within the longer side and the lines of the hunks
/// passed.
pub proof fn lemma_cursors_bound(f: FileDiffView, n: int)
    requires
        0 <= n <= f.hunks.len(),
    ensures
        cursors_after(f, n).0 <= old_len(f) + lines_before(f.hunks, n),
        cursors_after(f, n).1 <= new_len(f) + lines_before(f.hunks, n),
    decreases n,
{
    if n > 0 {
        lemma_cursors_bound(f, n - 1);
        let kinds = kinds_of(f.hunks[n - 1].lines);
        lemma_count_kind_bound(kinds, kinds.len() as int, LineType::Context);
    }
}

/// Where a content cursor stands when a hunk that starts at line `start`
/// begins.
fn cursor_target(cursor: usize, start: u32, len: usize) -> (target: usize)
    ensures
        target == fill_target(cursor as nat, start as nat, len as nat),
{
    let wanted = start.saturating_sub(1) as usize;
    if cursor <= wanted && wanted <= len {
        wanted
    } else {
        cursor
    }
}

/// Appends rows that show content lines of both sides, one line of each
/// side per row.
fn push_fill_rows(rows: &mut Vec<Row>, old_from: usize, old_to: usize, new_from: usize, new_to: usize)
    requires
        old_from <= old_to,
        new_from <= new_to,
    ensures
        rows_view(final(rows)@) == rows_view(old(rows)@) + fill_rows(
            old_from as int,
            old_to as int,
            new_from as int,
            new_to as int,
        ),
{
    let ghost before = rows_view(rows@);
    let ghost target = fill_rows(old_from as int, old_to as int, new_from as int, new_to as int);
    let old_rows = old_to - old_from;
    let new_rows = new_to - new_from;
    let count = if old_rows >= new_rows {
        old_rows
    } else {
        new_rows
    };
    let mut i: usize = 0;
    assert(before + target.take(0) =~= before);
    while i < count
        invariant
            i <= count,
            count == target.len(),
            old_rows == old_to - old_from,
            new_rows == new_to - new_from,
            old_from <= old_to,
            new_from <= new_to,
            target == fill_rows(old_from as int, old_to as int, new_from as int, new_to as int),
            rows_view(rows@) == before + target.take(i as int),
        decreases count - i,
    {
        let ghost so_far = rows@;
        let left = if i < old_rows {
            Some(Cell { line: None, index: old_from + i })
        } else {
            None
        };
        let right = if i < new_rows {
            Some(Cell { line: None, index: new_from + i })
        } else {
            None
        };
        let row = Row::Pair { left, right };
        rows.push(row);
        proof {
            assert(row@ == target[i as int]);
            assert(rows_view(rows@) =~= rows_view(so_far).push(row@));
            assert(before + target.take(i as int + 1) =~= (before + target.take(i as int)).push(
                row@,
            ));
        }
        i += 1;
    }
    assert(target.take(i as int) =~= target);
}

/// For each line of a hunk, and for the end of the hunk, the number of
/// lines before it on the old side (`.0`) and on the new side (`.1`).
fn side_positions(lines: &[DiffLine]) -> (pos: Vec<(usize, usize)>)
    ensures
        pos@.len() == lines@.len() + 1,
        forall|l: int|
            0 <= l <= lines@.len() ==> {
                &&& (#[trigger] pos@[l]).0 == old_side_count(kinds_of(diff_lines_view(lines@)), l)
                &&& pos@[l].1 == new_side_count(kinds_of(diff_lines_view(lines@)), l)
                &&& pos@[l].0 <= l
                &&& pos@[l].1 <= l
            },
{
    let ghost kinds = kinds_of(diff_lines_view(lines@));
    let mut pos: Vec<(usize, usize)> = Vec::new();
    let mut old_seen: usize = 0;
    let mut new_seen: usize = 0;
    pos.push((0, 0));
    let mut l: usize = 0;
    while l < lines.len()
        invariant
            l <= lines@.len(),
            kinds == kinds_of(diff_lines_view(lines@)),
            pos@.len() == l + 1,
            old_seen == old_side_count(kinds, l as int),
            new_seen == new_side_count(kinds, l as int),
            old_seen <= l,
            new_seen <= l,
            forall|k: int|
                0 <= k <= l ==> {
                    &&& (#[trigger] pos@[k]).0 == old_side_count(kinds, k)
                    &&& pos@[k].1 == new_side_count(kinds, k)
                    &&& pos@[k].0 <= k
                    &&& pos@[k].1 <= k
                },
        decreases lines@.len() - l,
    {
        match lines[l].line_type {
            LineType::Context => {
                old_seen += 1;
                new_seen += 1;
            },
            LineType::Removed => {
                old_seen += 1;
            },
            LineType::Added => {
                new_seen += 1;
            },
            LineType::Header => {},
        }
        l += 1;
        pos.push((old_seen, new_seen));
    }
    pos
}

/// Appends the full-file rows of the lines of hunk `h`.
fn push_replay_rows(
    rows: &mut Vec<Row>,
    lines: &[DiffLine],
    h: usize,
    old_cursor: usize,
    new_cursor: usize,
) -> (end: (usize, usize))
    requires
        old_cursor + lines@.len() <= usize::MAX,
        new_cursor + lines@.len() <= usize::MAX,
    ensures
        rows_view(final(rows)@) == rows_view(old(rows)@) + replay_rows(
            kinds_of(diff_lines_view(lines@)),
            h as int,
            old_cursor as int,
            new_cursor as int,
        ),
        end.0 == old_cursor + old_side_count(
            kinds_of(diff_lines_view(lines@)),
            lines@.len() as int,
        ),
        end.1 == new_cursor + new_side_count(
            kinds_of(diff_lines_view(lines@)),
            lines@.len() as int,
        ),
{
    let ghost kinds = kinds_of(diff_lines_view(lines@));
    let ghost before = rows_view(rows@);
    let ghost target = replay_rows(kinds, h as int, old_cursor as int, new_cursor as int);
    let indices = pair_indices(lines);
    let pos = side_positions(lines);
    proof {
        lemma_pairing_in_range(kinds, 0);
        assert(index_pairs(indices@).len() == indices@.len());
        assert(before + target.take(0) =~= before);
    }
    let mut r: usize = 0;
    while r < indices.len()
        invariant
            r <= indices@.len(),
            old_cursor + lines@.len() <= usize::MAX,
            new_cursor + lines@.len() <= usize::MAX,
            kinds == kinds_of(diff_lines_view(lines@)),
            target == replay_rows(kinds, h as int, old_cursor as int, new_cursor as int),
            index_pairs(indices@) == pairing(kinds),
            target.len() == indices@.len(),
            pos@.len() == lines@.len() + 1,
            forall|l: int|
                0 <= l <= lines@.len() ==> {
                    &&& (#[trigger] pos@[l]).0 == old_side_count(kinds, l)
                    &&& pos@[l].1 == new_side_count(kinds, l)
                    &&& pos@[l].0 <= l
                    &&& pos@[l].1 <= l
                },
            forall|q: int|
                0 <= q < pairing(kinds).len() ==> {
                    let p = #[trigger] pairing(kinds)[q];
                    &&& p.0 matches Some(i) ==> 0 <= i < lines@.len()
                    &&& p.1 matches Some(i) ==> 0 <= i < lines@.len()
                },
            rows_view(rows@) == before + target.take(r as int),
        decreases indices@.len() - r,
    {
        let ghost so_far = rows@;
        let (left, right) = indices[r];
        assert(index_pairs(indices@)[r as int] == index_pair(indices@[r as int]));
        assert(pairing(kinds)[r as int] == index_pair((left, right)));
        let left_cell = match left {
            Some(l) => Some(Cell { line: Some((h, l)), index: old_cursor + pos[l].0 }),
            None => None,
        };
        let right_cell = match right {
            Some(l) => Some(Cell { line: Some((h, l)), index: new_cursor + pos[l].1 }),
            None => None,
        };
        let row = Row::Pair { left: left_cell, right: right_cell };
        rows.push(row);
        proof {
            assert(row@ == target[r as int]);
            assert(rows_view(rows@) =~= rows_view(so_far).push(row@));
            assert(before + target.take(r as int + 1) =~= (before + target.take(r as int)).push(
                row@,
            ));
        }
        r += 1;
    }
    assert(target.take(r as int) =~= target);
    let last = pos[lines.len()];
    (old_cursor + last.0, new_cursor + last.1)
}

/// Length of a side's full content; 0 where it is absent.
fn content_len(content: &Option<Vec<String>>) -> (len: usize)
    ensures
        len == match crate::diff::content_view(*content) {
            Some(c) => c.len(),
            None => 0,
        },
{
    match content {
        Some(lines) => lines.len(),
        None => 0,
    }
}

/// Appends the rows of a file with both sides in full.
fn push_full_rows(rows: &mut Vec<Row>, diff: &FileDiff)
    requires
        index_bound(diff@) <= usize::MAX,
    ensures
        rows_view(final(rows)@) == rows_view(old(rows)@) + full_rows(diff@),
{
    let ghost f = diff@;
    let ghost before = rows_view(rows@);
    let old_total = content_len(&diff.old_content);
    let new_total = content_len(&diff.new_content);
    let mut old_cursor: usize = 0;
    let mut new_cursor: usize = 0;
    let mut h: usize = 0;
    assert(before + full_rows_upto(f, 0) =~= before);
    while h < diff.hunks.len()
        invariant
            h <= diff.hunks@.len(),
            f == diff@,
            f.hunks.len() == diff.hunks@.len(),
            old_total == old_len(f),
            new_total == new_len(f),
            index_bound(f) <= usize::MAX,
            old_cursor == cursors_after(f, h as int).0,
            new_cursor == cursors_after(f, h as int).1,
            rows_view(rows@) == before + full_rows_upto(f, h as int),
        decreases diff.hunks@.len() - h,
    {
        let lines = hunk_lines(diff, h);
        proof {
            lemma_cursors_bound(f, h as int);
            lemma_lines_before_monotonic(f.hunks, h as int + 1, f.hunks.len() as int);
        }
        let old_target = cursor_target(old_cursor, diff.hunks[h].old_start, old_total);
        let new_target = cursor_target(new_cursor, diff.hunks[h].new_start, new_total);
        let ghost at_start = rows_view(rows@);
        push_fill_rows(rows, old_cursor, old_target, new_cursor, new_target);
        let end = push_replay_rows(rows, lines, h, old_target, new_target);
        proof {
            assert(rows_view(rows@) =~= at_start + full_rows_of_hunk(f, h as int));
            assert(rows_view(rows@) =~= before + full_rows_upto(f, h as int + 1));
        }
        old_cursor = end.0;
        new_cursor = end.1;
        h += 1;
    }
    let old_end = if old_cursor <= old_total {
        old_total
    } else {
        old_cursor
    };
    let new_end = if new_cursor <= new_total {
        new_total
    } else {
        new_cursor
    };
    push_fill_rows(rows, old_cursor, old_end, new_cursor, new_end);
    assert(rows_view(rows@) =~= before + full_rows(f));
}

/// The display rows of one file in a layout.
pub fn file_rows(diff: &FileDiff, mode: DiffMode) -> (rows: Vec<Row>)
    requires
        index_bound(diff@) <= usize::MAX,
    ensures
        rows_view(rows@) == spec_file_rows(diff@, mode),
{
    let mut rows: Vec<Row> = Vec::new();
    rows.push(Row::FileHeader);
    assert(rows_view(rows@) =~= seq![RowView::FileHeader]);
    if diff.collapsed || diff.is_binary {
        return rows;
    }
    match mode {
        DiffMode::SideBySideFull => {
            if diff.old_content.is_some() && diff.new_content.is_some() {
                push_full_rows(&mut rows, diff);
            } else {
                push_hunk_only_rows(&mut rows, diff, DiffMode::SideBySide, false);
            }
        },
        _ => {
            push_hunk_only_rows(&mut rows, diff, mode, true);
        },
    }
    rows
}

/// A row together with the file it belongs to, as a position in the list
/// of files shown.
#[derive(Debug, Clone, Copy, PartialEq, Eq)]
pub struct PlacedRow {
    pub file: usize,
    pub row: Row,
}

/// A placed row as a mathematical value.
pub struct PlacedRowView {
    pub file: int,
    pub row: RowView,
}

impl View for PlacedRow {
    type V = PlacedRowView;

    open spec fn view(&self) -> PlacedRowView {
        PlacedRowView { file: self.file as int, row: self.row@ }
    }
}

/// The views of a sequence of placed rows.
pub open spec fn placed_rows_view(rows: Seq<PlacedRow>) -> Seq<PlacedRowView> {
    rows.map_values(|r: PlacedRow| r@)
}

/// The row at place `local` of a file: the file's row there, and a blank
/// row where the file has fewer rows than the index counts for it.
pub open spec fn spec_row_at(f: FileDiffView, mode: DiffMode, local: int) -> RowView {
    let rows = spec_file_rows(f, mode);
    if 0 <= local < rows.len() {
        rows[local]
    } else {
        RowView::Blank
    }
}

/// The row at the absolute position `pos`: the row of the file that owns
/// the position, at the position's place within that file.
pub open spec fn spec_placed_row(files: Seq<FileDiffView>, mode: DiffMode, pos: nat) -> PlacedRowView {
    let k = spec_file_at(files, mode, pos)->0;
    PlacedRowView { file: k, row: spec_row_at(files[k], mode, pos - rows_before(files, mode, k)) }
}

/// The rows of a viewport of `height` rows whose first row is `scroll`: the
/// rows from `scroll` on, as far as the viewport and the files reach.
pub open spec fn spec_visible_rows(
    files: Seq<FileDiffView>,
    mode: DiffMode,
    scroll: nat,
    height: nat,
) -> Seq<PlacedRowView> {
    let total = spec_total_lines(files, mode);
    let end = if scroll + height <= total {
        scroll + height
    } else {
        total
    };
    Seq::new(
        if end >= scroll {
            (end - scroll) as nat
        } else {
            0nat
        },
        |i: int| spec_placed_row(files, mode, (scroll + i) as nat),
    )
}

/// The rows of a viewport. Rows are built only for the files that reach
/// into the viewport.
pub fn visible_rows(diffs: &[&FileDiff], mode: DiffMode, scroll: usize, height: usize) -> (rows:
    Vec<PlacedRow>)
    requires
        spec_total_lines(file_refs_view(diffs@), mode) <= usize::MAX,
        forall|i: int| 0 <= i < diffs@.len() ==> index_bound((#[trigger] diffs@[i])@) <= usize::MAX,
    ensures
        placed_rows_view(rows@) == spec_visible_rows(
            file_refs_view(diffs@),
            mode,
            scroll as nat,
            height as nat,
        ),
{
    let ghost files = file_refs_view(diffs@);
    let ghost total = spec_total_lines(files, mode);
    let end = scroll.saturating_add(height);
    let mut out: Vec<PlacedRow> = Vec::new();
    let mut line: usize = 0;
    let mut i: usize = 0;
    while i < diffs.len() && line < end
        invariant
            i <= diffs@.len(),
            files == file_refs_view(diffs@),
            total == spec_total_lines(files, mode),
            total <= usize::MAX,
            forall|k: int| 0 <= k < diffs@.len() ==> index_bound((#[trigger] diffs@[k])@) <= usize::MAX,
            end == if scroll + height <= usize::MAX {
                (scroll + height) as usize
            } else {
                usize::MAX
            },
            line == rows_before(files, mode, i as int),
            out@.len() == (if line <= scroll {
                0
            } else if line <= end {
                line - scroll
            } else {
                end - scroll
            }),
            forall|j: int|
                0 <= j < out@.len() ==> (#[trigger] out@[j])@ == spec_placed_row(
                    files,
                    mode,
                    (scroll + j) as nat,
                ),
        decreases diffs@.len() - i,
    {
        proof {
            lemma_rows_before_ascends(files, mode, i as int + 1, files.len() as int);
        }
        let count = file_line_count(diffs[i], mode);
        let next = line + count;
        if next > scroll {
            let rows = file_rows(diffs[i], mode);
            let from = if scroll > line {
                scroll - line
            } else {
                0
            };
            let to = if end - line < count {
                end - line
            } else {
                count
            };
            let mut local = from;
            while local < to
                invariant
                    from <= local <= to,
                    to <= count,
                    i < diffs@.len(),
                    files == file_refs_view(diffs@),
                    line == rows_before(files, mode, i as int),
                    line + count == rows_before(files, mode, i as int + 1),
                    line + from >= scroll,
                    rows_view(rows@) == spec_file_rows(files[i as int], mode),
                    out@.len() == line + local - scroll,
                    forall|j: int|
                        0 <= j < out@.len() ==> (#[trigger] out@[j])@ == spec_placed_row(
                            files,
                            mode,
                            (scroll + j) as nat,
                        ),
                decreases to - local,
            {
                let row = if local < rows.len() {
                    rows[local]
                } else {
                    Row::Blank
                };
                proof {
                    let pos = (line + local) as nat;
                    assert(owns_row(files, mode, i as int, pos));
                    lemma_file_at_is_owner(files, mode, pos);
                    assert(rows_view(rows@).len() == rows@.len());
                    if local < rows@.len() {
                        assert(rows_view(rows@)[local as int] == rows@[local as int]@);
                    }
                    assert(row@ == spec_row_at(files[i as int], mode, local as int));
                }
                out.push(PlacedRow { file: i, row });
                local += 1;
            }
        }
        line = next;
        i += 1;
    }
    proof {
        lemma_rows_before_ascends(files, mode, i as int, files.len() as int);
        assert(placed_rows_view(out@) =~= spec_visible_rows(
            files,
            mode,
            scroll as nat,
            height as nat,
        ));
    }
    out
}

/// There are as many unified rows as shown lines.
pub proof fn lemma_unified_rows_len(kinds: Seq<LineType>, start: int, h: int, base: int)
    requires
        0 <= start <= kinds.len(),
    ensures
        unified_rows_from(kinds, start, h, base).len() == shown_from(kinds, start),
    decreases kinds.len() - start,
{
    if start < kinds.len() {
        lemma_unified_rows_len(kinds, start + 1, h, base);
    }
}

/// In a hunk layout the hunks have as many rows as the index counts.
pub proof fn lemma_hunk_only_rows_len(hunks: Seq<HunkView>, n: int, mode: DiffMode, header: bool)
    requires
        0 <= n <= hunks.len(),
        mode != DiffMode::SideBySideFull,
    ensures
        hunk_only_rows(hunks, n, mode, header).len() == hunks_rows(
            hunks,
            n,
            mode,
            if header {
                1
            } else {
                0
            },
        ),
    decreases n,
{
    if n > 0 {
        lemma_hunk_only_rows_len(hunks, n - 1, mode, header);
        let kinds = kinds_of(hunks[n - 1].lines);
        lemma_unified_rows_len(kinds, 0, n - 1, lines_before(hunks, n - 1) as int);
    }
}

/// Wherever the rows come from the hunks alone, a file has exactly the
/// rows that the index counts for it: in the unified and the two-column
/// layout, for a collapsed or binary file, and in the full-file layout for
/// a file that lacks a side in full.
pub proof fn lemma_file_rows_len(f: FileDiffView, mode: DiffMode)
    requires
        mode != DiffMode::SideBySideFull || !has_full_content(f) || f.collapsed || f.is_binary,
    ensures
        spec_file_rows(f, mode).len() == spec_file_line_count(f, mode),
{
    if !(f.collapsed || f.is_binary) {
        if mode == DiffMode::SideBySideFull {
            lemma_hunk_only_rows_len(f.hunks, f.hunks.len() as int, DiffMode::SideBySide, false);
        } else {
            lemma_hunk_only_rows_len(f.hunks, f.hunks.len() as int, mode, true);
        }
    }
}

} // verus!
