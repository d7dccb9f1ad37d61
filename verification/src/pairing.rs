//! Run pairing: how the lines of one hunk share rows in a two-column layout.
//!
//! A run of removed lines that is directly followed by a run of added lines
//! is shown side by side, row by row; where one run is shorter its column
//! stays blank. Every other line has a row of its own.

use vstd::prelude::*;
use crate::diff::{DiffLine, LineType, diff_lines_view, kinds_of};

verus! {

/// Length of the longest run of lines of kind `kind` that starts at `start`.
pub open spec fn run_len(kinds: Seq<LineType>, start: int, kind: LineType) -> nat
    decreases kinds.len() - start,
{
    if 0 <= start < kinds.len() && kinds[start] == kind {
        1 + run_len(kinds, start + 1, kind)
    } else {
        0
    }
}

/// The rows of a removed run of `removed` lines at `start` followed by an
/// added run of `added` lines: row `i` holds the `i`-th line of each run
/// that is long enough.
pub open spec fn block_pairs(start: int, removed: nat, added: nat) -> Seq<
    (Option<int>, Option<int>),
> {
    Seq::new(
        if removed >= added {
            removed
        } else {
            added
        },
        |i: int|
            (
                if i < removed {
                    Some(start + i)
                } else {
                    None
                },
                if i < added {
                    Some(start + removed + i)
                } else {
                    None
                },
            ),
    )
}

/// The rows of the lines from `start` on. A row names the line shown on the
/// left and the line shown on the right by their positions in `kinds`.
pub open spec fn pairing_from(kinds: Seq<LineType>, start: int) -> Seq<(Option<int>, Option<int>)>
    decreases kinds.len() - start,
{
    if start < 0 || start >= kinds.len() {
        Seq::empty()
    } else {
        match kinds[start] {
            LineType::Context => seq![(Some(start), Some(start))] + pairing_from(kinds, start + 1),
            LineType::Added => seq![(None, Some(start))] + pairing_from(kinds, start + 1),
            LineType::Header => pairing_from(kinds, start + 1),
            LineType::Removed => {
                let removed = run_len(kinds, start, LineType::Removed);
                let added = run_len(kinds, start + removed, LineType::Added);
                proof {
                    lemma_run_len(kinds, start, LineType::Removed);
                    lemma_run_len(kinds, start + removed, LineType::Added);
                }
                block_pairs(start, removed, added) + pairing_from(kinds, start + removed + added)
            },
        }
    }
}

/// The rows of a whole hunk.
pub open spec fn pairing(kinds: Seq<LineType>) -> Seq<(Option<int>, Option<int>)> {
    pairing_from(kinds, 0)
}

/// Number of rows saved by pairing from `start` on: for each removed run
/// that an added run follows, the length of the shorter of the two.
pub open spec fn overlap_from(kinds: Seq<LineType>, start: int) -> nat
    decreases kinds.len() - start,
{
    if start < 0 || start >= kinds.len() {
        0
    } else if kinds[start] == LineType::Removed {
        let removed = run_len(kinds, start, LineType::Removed);
        let added = run_len(kinds, start + removed, LineType::Added);
        proof {
            lemma_run_len(kinds, start, LineType::Removed);
            lemma_run_len(kinds, start + removed, LineType::Added);
        }
        (if removed <= added {
            removed
        } else {
            added
        }) + overlap_from(kinds, start + removed + added)
    } else {
        overlap_from(kinds, start + 1)
    }
}

/// Number of rows saved by pairing in a whole hunk.
pub open spec fn overlap(kinds: Seq<LineType>) -> nat {
    overlap_from(kinds, 0)
}

/// Number of lines from `start` on that are no header lines.
pub open spec fn shown_from(kinds: Seq<LineType>, start: int) -> nat
    decreases kinds.len() - start,
{
    if start < 0 || start >= kinds.len() {
        0
    } else {
        (if kinds[start] == LineType::Header {
            0nat
        } else {
            1nat
        }) + shown_from(kinds, start + 1)
    }
}

/// Number of lines of a hunk that are no header lines.
pub open spec fn shown_lines(kinds: Seq<LineType>) -> nat {
    shown_from(kinds, 0)
}

/// No removed line is directly followed by an added line.
pub open spec fn unpaired(kinds: Seq<LineType>) -> bool {
    forall|i: int, j: int|
        0 <= i && j == i + 1 && j < kinds.len() && #[trigger] kinds[i] == LineType::Removed
            ==> #[trigger] kinds[j] != LineType::Added
}

/// A row of positions as integers.
pub open spec fn index_pair(p: (Option<usize>, Option<usize>)) -> (Option<int>, Option<int>) {
    (
        match p.0 {
            Some(i) => Some(i as int),
            None => None,
        },
        match p.1 {
            Some(i) => Some(i as int),
            None => None,
        },
    )
}

/// Rows of positions as integers.
pub open spec fn index_pairs(pairs: Seq<(Option<usize>, Option<usize>)>) -> Seq<
    (Option<int>, Option<int>),
> {
    pairs.map_values(|p: (Option<usize>, Option<usize>)| index_pair(p))
}

/// A run ends inside the sequence, and every line of it has the run's kind.
pub proof fn lemma_run_len(kinds: Seq<LineType>, start: int, kind: LineType)
    requires
        0 <= start <= kinds.len(),
    ensures
        start + run_len(kinds, start, kind) <= kinds.len(),
        forall|i: int| start <= i < start + run_len(kinds, start, kind) ==> kinds[i] == kind,
        start + run_len(kinds, start, kind) < kinds.len() ==> kinds[start + run_len(
            kinds,
            start,
            kind,
        )] != kind,
    decreases kinds.len() - start,
{
    if start < kinds.len() && kinds[start] == kind {
        lemma_run_len(kinds, start + 1, kind);
    }
}

/// A run whose first `m` lines are known continues with the run that
/// starts behind them.
pub proof fn lemma_run_len_step(kinds: Seq<LineType>, start: int, m: int, kind: LineType)
    requires
        0 <= start <= m <= kinds.len(),
        forall|i: int| start <= i < m ==> kinds[i] == kind,
    ensures
        run_len(kinds, start, kind) == (m - start) + run_len(kinds, m, kind),
    decreases m - start,
{
    if start < m {
        lemma_run_len_step(kinds, start + 1, m, kind);
    }
}

/// A stretch of lines without header lines shows all of its lines.
proof fn lemma_shown_run(kinds: Seq<LineType>, start: int, end: int)
    requires
        0 <= start <= end <= kinds.len(),
        forall|i: int| start <= i < end ==> kinds[i] != LineType::Header,
    ensures
        shown_from(kinds, start) == (end - start) + shown_from(kinds, end),
    decreases end - start,
{
    if start < end {
        lemma_shown_run(kinds, start + 1, end);
    }
}

/// The lines that are shown are the rows of the pairing and the rows that
/// pairing saved.
pub proof fn lemma_shown_is_rows_and_overlap(kinds: Seq<LineType>, start: int)
    requires
        0 <= start <= kinds.len(),
    ensures
        shown_from(kinds, start) == pairing_from(kinds, start).len() + overlap_from(kinds, start),
    decreases kinds.len() - start,
{
    if start < kinds.len() {
        if kinds[start] == LineType::Removed {
            let removed = run_len(kinds, start, LineType::Removed);
            lemma_run_len(kinds, start, LineType::Removed);
            let added = run_len(kinds, start + removed, LineType::Added);
            lemma_run_len(kinds, start + removed, LineType::Added);
            lemma_shown_run(kinds, start, start + removed + added);
            lemma_shown_is_rows_and_overlap(kinds, start + removed + added);
        } else {
            lemma_shown_is_rows_and_overlap(kinds, start + 1);
        }
    }
}

/// Where no removed line is directly followed by an added line, pairing
/// saves no row.
pub proof fn lemma_unpaired_has_no_overlap(kinds: Seq<LineType>, start: int)
    requires
        0 <= start <= kinds.len(),
        unpaired(kinds),
    ensures
        overlap_from(kinds, start) == 0,
    decreases kinds.len() - start,
{
    if start < kinds.len() {
        if kinds[start] == LineType::Removed {
            let removed = run_len(kinds, start, LineType::Removed);
            lemma_run_len(kinds, start, LineType::Removed);
            let added = run_len(kinds, start + removed, LineType::Added);
            assert(added == 0) by {
                if start + removed < kinds.len() {
                    assert(kinds[start + removed - 1] == LineType::Removed);
                    assert(kinds[start + removed] != LineType::Added);
                }
            }
            lemma_unpaired_has_no_overlap(kinds, start + removed + added);
        } else {
            lemma_unpaired_has_no_overlap(kinds, start + 1);
        }
    }
}

/// Where a removed line at or behind `start` is directly followed by an
/// added line, pairing saves a row.
pub proof fn lemma_paired_has_overlap(kinds: Seq<LineType>, start: int, i: int)
    requires
        0 <= start <= i,
        i + 1 < kinds.len(),
        kinds[i] == LineType::Removed,
        kinds[i + 1] == LineType::Added,
    ensures
        overlap_from(kinds, start) >= 1,
    decreases kinds.len() - start,
{
    if kinds[start] == LineType::Removed {
        let removed = run_len(kinds, start, LineType::Removed);
        lemma_run_len(kinds, start, LineType::Removed);
        let end = start + removed;
        let added = run_len(kinds, end, LineType::Added);
        lemma_run_len(kinds, end, LineType::Added);
        if i < end {
            assert(i + 1 == end) by {
                if i + 1 < end {
                    assert(kinds[i + 1] == LineType::Removed);
                }
            }
            assert(added >= 1);
        } else {
            assert(i >= end + added) by {
                if i < end + added {
                    assert(kinds[i] == LineType::Added);
                }
            }
            lemma_paired_has_overlap(kinds, end + added, i);
        }
    } else {
        lemma_paired_has_overlap(kinds, start + 1, i);
    }
}

/// The kind of the line at `i`.
fn kind_at(lines: &[DiffLine], i: usize) -> (kind: LineType)
    requires
        i < lines@.len(),
    ensures
        kind == kinds_of(diff_lines_view(lines@))[i as int],
{
    lines[i].line_type
}

/// End of the run of kind `kind` that starts at `start`.
fn run_end(lines: &[DiffLine], start: usize, kind: LineType) -> (end: usize)
    requires
        start <= lines@.len(),
    ensures
        end == start + run_len(kinds_of(diff_lines_view(lines@)), start as int, kind),
        end <= lines@.len(),
{
    let ghost kinds = kinds_of(diff_lines_view(lines@));
    let mut end = start;
    while end < lines.len() && kind_at(lines, end) == kind
        invariant
            start <= end <= lines@.len(),
            kinds == kinds_of(diff_lines_view(lines@)),
            forall|i: int| start <= i < end ==> kinds[i] == kind,
        decreases lines@.len() - end,
    {
        end += 1;
    }
    proof {
        lemma_run_len_step(kinds, start as int, end as int, kind);
    }
    end
}

/// Number of rows that the lines of a hunk occupy when paired, without
/// building the rows.
pub fn paired_row_count(lines: &[DiffLine]) -> (rows: usize)
    ensures
        rows == pairing(kinds_of(diff_lines_view(lines@))).len(),
        rows <= lines@.len(),
{
    let ghost kinds = kinds_of(diff_lines_view(lines@));
    let n = lines.len();
    let mut rows: usize = 0;
    let mut i: usize = 0;
    while i < n
        invariant
            i <= n,
            n == lines@.len(),
            kinds == kinds_of(diff_lines_view(lines@)),
            rows <= i,
            rows + pairing_from(kinds, i as int).len() == pairing(kinds).len(),
        decreases n - i,
    {
        match kind_at(lines, i) {
            LineType::Context => {
                rows += 1;
                i += 1;
            },
            LineType::Added => {
                rows += 1;
                i += 1;
            },
            LineType::Header => {
                i += 1;
            },
            LineType::Removed => {
                let j = run_end(lines, i, LineType::Removed);
                let k = run_end(lines, j, LineType::Added);
                let removed = j - i;
                let added = k - j;
                rows += if removed >= added {
                    removed
                } else {
                    added
                };
                i = k;
            },
        }
    }
    rows
}

/// Number of lines of a hunk that are no header lines.
pub fn shown_line_count(lines: &[DiffLine]) -> (rows: usize)
    ensures
        rows == shown_lines(kinds_of(diff_lines_view(lines@))),
        rows <= lines@.len(),
{
    let ghost kinds = kinds_of(diff_lines_view(lines@));
    let n = lines.len();
    let mut rows: usize = 0;
    let mut i: usize = n;
    while i > 0
        invariant
            i <= n,
            n == lines@.len(),
            kinds == kinds_of(diff_lines_view(lines@)),
            rows <= n - i,
            rows == shown_from(kinds, i as int),
        decreases i,
    {
        i -= 1;
        if kind_at(lines, i) != LineType::Header {
            rows += 1;
        }
    }
    rows
}

/// The pairing of a hunk's lines, each row as the positions of its left
/// and right line.
pub fn pair_indices(lines: &[DiffLine]) -> (pairs: Vec<(Option<usize>, Option<usize>)>)
    ensures
        index_pairs(pairs@) == pairing(kinds_of(diff_lines_view(lines@))),
{
    let ghost kinds = kinds_of(diff_lines_view(lines@));
    let n = lines.len();
    let mut pairs: Vec<(Option<usize>, Option<usize>)> = Vec::new();
    let mut i: usize = 0;
    while i < n
        invariant
            i <= n,
            n == lines@.len(),
            kinds == kinds_of(diff_lines_view(lines@)),
            index_pairs(pairs@) + pairing_from(kinds, i as int) == pairing(kinds),
        decreases n - i,
    {
        let ghost before = pairs@;
        match kind_at(lines, i) {
            LineType::Context => {
                pairs.push((Some(i), Some(i)));
                assert(index_pairs(pairs@) =~= index_pairs(before) + seq![
                    (Some(i as int), Some(i as int)),
                ]);
                i += 1;
            },
            LineType::Added => {
                pairs.push((None, Some(i)));
                assert(index_pairs(pairs@) =~= index_pairs(before) + seq![
                    (None::<int>, Some(i as int)),
                ]);
                i += 1;
            },
            LineType::Header => {
                i += 1;
            },
            LineType::Removed => {
                let j = run_end(lines, i, LineType::Removed);
                let k = run_end(lines, j, LineType::Added);
                let removed = j - i;
                let added = k - j;
                let rows = if removed >= added {
                    removed
                } else {
                    added
                };
                let ghost block = block_pairs(i as int, removed as nat, added as nat);
                let mut t: usize = 0;
                while t < rows
                    invariant
                        t <= rows,
                        rows == block.len(),
                        block == block_pairs(i as int, removed as nat, added as nat),
                        j == i + removed,
                        k == j + added,
                        k <= n,
                        index_pairs(pairs@) == index_pairs(before) + block.take(t as int),
                    decreases rows - t,
                {
                    let ghost so_far = pairs@;
                    let left = if t < removed {
                        Some(i + t)
                    } else {
                        None
                    };
                    let right = if t < added {
                        Some(j + t)
                    } else {
                        None
                    };
                    pairs.push((left, right));
                    assert(index_pair((left, right)) == block[t as int]);
                    assert(index_pairs(pairs@) =~= index_pairs(so_far).push(block[t as int]));
                    assert(block.take(t as int + 1) =~= block.take(t as int).push(block[t as int]));
                    t += 1;
                }
                assert(block.take(rows as int) =~= block);
                i = k;
            },
        }
    }
    assert(index_pairs(pairs@) + Seq::<(Option<int>, Option<int>)>::empty() =~= index_pairs(
        pairs@,
    ));
    pairs
}

/// The line named by an optional position.
pub open spec fn line_at(lines: Seq<DiffLine>, i: Option<int>) -> Option<DiffLine> {
    match i {
        Some(i) => Some(lines[i]),
        None => None,
    }
}

/// The line behind an optional reference.
pub open spec fn line_of(l: Option<&DiffLine>) -> Option<DiffLine> {
    match l {
        Some(l) => Some(*l),
        None => None,
    }
}

/// Every row names lines of the hunk.
pub proof fn lemma_pairing_in_range(kinds: Seq<LineType>, start: int)
    requires
        0 <= start <= kinds.len(),
    ensures
        forall|r: int|
            0 <= r < pairing_from(kinds, start).len() ==> {
                let p = #[trigger] pairing_from(kinds, start)[r];
                &&& p.0 matches Some(i) ==> start <= i < kinds.len()
                &&& p.1 matches Some(i) ==> start <= i < kinds.len()
            },
    decreases kinds.len() - start,
{
    if start < kinds.len() {
        if kinds[start] == LineType::Removed {
            let removed = run_len(kinds, start, LineType::Removed);
            lemma_run_len(kinds, start, LineType::Removed);
            let added = run_len(kinds, start + removed, LineType::Added);
            lemma_run_len(kinds, start + removed, LineType::Added);
            lemma_pairing_in_range(kinds, start + removed + added);
        } else {
            lemma_pairing_in_range(kinds, start + 1);
        }
    }
}

/// Pairs the lines of a hunk for a two-column layout: each row holds the
/// line shown on the left and the line shown on the right.
pub fn pair_lines<'a>(lines: &'a [DiffLine]) -> (pairs: Vec<
    (Option<&'a DiffLine>, Option<&'a DiffLine>),
>)
    ensures
        pairs@.len() == pairing(kinds_of(diff_lines_view(lines@))).len(),
        forall|r: int|
            0 <= r < pairs@.len() ==> {
                let p = pairing(kinds_of(diff_lines_view(lines@)))[r];
                &&& line_of((#[trigger] pairs@[r]).0) == line_at(lines@, p.0)
                &&& line_of(pairs@[r].1) == line_at(lines@, p.1)
            },
{
    let ghost rows = pairing(kinds_of(diff_lines_view(lines@)));
    let indices = pair_indices(lines);
    proof {
        lemma_pairing_in_range(kinds_of(diff_lines_view(lines@)), 0);
        assert(index_pairs(indices@).len() == indices@.len());
    }
    let mut pairs: Vec<(Option<&'a DiffLine>, Option<&'a DiffLine>)> = Vec::new();
    let mut r: usize = 0;
    while r < indices.len()
        invariant
            r <= indices@.len(),
            rows == pairing(kinds_of(diff_lines_view(lines@))),
            index_pairs(indices@) == rows,
            rows.len() == indices@.len(),
            forall|q: int|
                0 <= q < rows.len() ==> {
                    let p = #[trigger] rows[q];
                    &&& p.0 matches Some(i) ==> 0 <= i < lines@.len()
                    &&& p.1 matches Some(i) ==> 0 <= i < lines@.len()
                },
            pairs@.len() == r,
            forall|q: int|
                0 <= q < r ==> {
                    &&& line_of((#[trigger] pairs@[q]).0) == line_at(lines@, rows[q].0)
                    &&& line_of(pairs@[q].1) == line_at(lines@, rows[q].1)
                },
        decreases indices@.len() - r,
    {
        let (left, right) = indices[r];
        assert(index_pairs(indices@)[r as int] == index_pair(indices@[r as int]));
        assert(rows[r as int] == index_pair((left, right)));
        let left_line = match left {
            Some(i) => Some(&lines[i]),
            None => None,
        };
        let right_line = match right {
            Some(i) => Some(&lines[i]),
            None => None,
        };
        pairs.push((left_line, right_line));
        r += 1;
    }
    pairs
}

/// A line of a hunk together with its position among the lines of its
/// file.
#[derive(Clone, Copy)]
pub struct IndexedLine<'a> {
    pub line: &'a DiffLine,
    pub index: usize,
}

/// The indexed line named by an optional position, counted from
/// `start_index`.
pub open spec fn indexed_line_at(lines: Seq<DiffLine>, start_index: int, i: Option<int>) -> Option<
    (DiffLine, int),
> {
    match i {
        Some(i) => Some((lines[i], start_index + i)),
        None => None,
    }
}

/// The line and the position behind an optional indexed line.
pub open spec fn indexed_line_view(l: Option<IndexedLine<'_>>) -> Option<(DiffLine, int)> {
    match l {
        Some(l) => Some((*l.line, l.index as int)),
        None => None,
    }
}

/// Pairs the lines of a hunk as `pair_lines` does and gives each line its
/// position among the lines of the file: `start_index` for the first line of
/// the hunk, header lines included in the count.
pub fn pair_lines_with_index<'a>(lines: &'a [DiffLine], start_index: usize) -> (pairs: Vec<
    (Option<IndexedLine<'a>>, Option<IndexedLine<'a>>),
>)
    requires
        start_index + lines@.len() <= usize::MAX,
    ensures
        pairs@.len() == pairing(kinds_of(diff_lines_view(lines@))).len(),
        forall|r: int|
            0 <= r < pairs@.len() ==> {
                let p = pairing(kinds_of(diff_lines_view(lines@)))[r];
                &&& indexed_line_view((#[trigger] pairs@[r]).0) == indexed_line_at(
                    lines@,
                    start_index as int,
                    p.0,
                )
                &&& indexed_line_view(pairs@[r].1) == indexed_line_at(
                    lines@,
                    start_index as int,
                    p.1,
                )
            },
{
    let ghost rows = pairing(kinds_of(diff_lines_view(lines@)));
    let indices = pair_indices(lines);
    proof {
        lemma_pairing_in_range(kinds_of(diff_lines_view(lines@)), 0);
        assert(index_pairs(indices@).len() == indices@.len());
    }
    let mut pairs: Vec<(Option<IndexedLine<'a>>, Option<IndexedLine<'a>>)> = Vec::new();
    let mut r: usize = 0;
    while r < indices.len()
        invariant
            r <= indices@.len(),
            start_index + lines@.len() <= usize::MAX,
            rows == pairing(kinds_of(diff_lines_view(lines@))),
            index_pairs(indices@) == rows,
            rows.len() == indices@.len(),
            forall|q: int|
                0 <= q < rows.len() ==> {
                    let p = #[trigger] rows[q];
                    &&& p.0 matches Some(i) ==> 0 <= i < lines@.len()
                    &&& p.1 matches Some(i) ==> 0 <= i < lines@.len()
                },
            pairs@.len() == r,
            forall|q: int|
                0 <= q < r ==> {
                    &&& indexed_line_view((#[trigger] pairs@[q]).0) == indexed_line_at(
                        lines@,
                        start_index as int,
                        rows[q].0,
                    )
                    &&& indexed_line_view(pairs@[q].1) == indexed_line_at(
                        lines@,
                        start_index as int,
                        rows[q].1,
                    )
                },
        decreases indices@.len() - r,
    {
        let (left, right) = indices[r];
        assert(index_pairs(indices@)[r as int] == index_pair(indices@[r as int]));
        assert(rows[r as int] == index_pair((left, right)));
        let left_line = match left {
            Some(i) => Some(IndexedLine { line: &lines[i], index: start_index + i }),
            None => None,
        };
        let right_line = match right {
            Some(i) => Some(IndexedLine { line: &lines[i], index: start_index + i }),
            None => None,
        };
        pairs.push((left_line, right_line));
        r += 1;
    }
    pairs
}

} // verus!
