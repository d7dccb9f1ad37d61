//! What a cell of a row shows: the kind of its line, the number in front
//! of it, and where its text is found.

use vstd::prelude::*;
use crate::diff::{FileDiff, FileDiffView, LineType, lines_view};
use crate::index::{DiffMode, has_full_content};
use crate::nav::least;
use crate::rows::{Cell, CellView};

verus! {

/// Where the text of a cell is found.
#[derive(Debug, Clone, Copy, PartialEq, Eq)]
pub enum TextSource {
    /// In a line of a hunk of the file.
    HunkLine { hunk: usize, line: usize },
    /// In a line of the full content of the cell's side.
    Content { index: usize },
}

/// Where the text of a cell is found, as a mathematical value.
pub enum TextSourceView {
    HunkLine { hunk: int, line: int },
    Content { index: int },
}

/// What a cell shows.
#[derive(Debug, Clone, Copy, PartialEq, Eq)]
pub struct CellInfo {
    pub kind: LineType,
    /// The line number in front of the line, where it has one.
    pub lineno: Option<usize>,
    pub source: TextSource,
}

/// What a cell shows, as a mathematical value.
pub struct CellInfoView {
    pub kind: LineType,
    pub lineno: Option<nat>,
    pub source: TextSourceView,
}

impl View for TextSource {
    type V = TextSourceView;

    open spec fn view(&self) -> TextSourceView {
        match *self {
            TextSource::HunkLine { hunk, line } => TextSourceView::HunkLine {
                hunk: hunk as int,
                line: line as int,
            },
            TextSource::Content { index } => TextSourceView::Content { index: index as int },
        }
    }
}

impl View for CellInfo {
    type V = CellInfoView;

    open spec fn view(&self) -> CellInfoView {
        CellInfoView {
            kind: self.kind,
            lineno: match self.lineno {
                Some(n) => Some(n as nat),
                None => None,
            },
            source: self.source@,
        }
    }
}

/// The full content of a side of the file.
pub open spec fn side_content(f: FileDiffView, old_side: bool) -> Option<Seq<Seq<char>>> {
    if old_side {
        f.old_content
    } else {
        f.new_content
    }
}

/// The full content of the side has a line `index`.
pub open spec fn has_content_line(f: FileDiffView, old_side: bool, index: int) -> bool {
    side_content(f, old_side) matches Some(lines) && 0 <= index < lines.len()
}

/// The number after `index`, as far as `usize` reaches.
pub open spec fn number_after(index: int) -> nat {
    least((index + 1) as nat, usize::MAX as nat)
}

/// What a cell of a row of the file shows in a layout, on the old or the
/// new side; `None` for a cell that names no line of the file.
///
/// A cell that names a line of the full content shows that line as
/// context. A cell that names a hunk line shows that line; in the
/// full-file layout of a file with both sides in full its text is taken
/// from the full content where the full content has the same text at the
/// cell's place, and its number is the cell's place where the line has no
/// number. In the one-column layout a line shows its new number, or its
/// old number where it has no new one.
pub open spec fn spec_describe_cell(
    f: FileDiffView,
    mode: DiffMode,
    old_side: bool,
    cell: CellView,
) -> Option<CellInfoView> {
    match cell.line {
        None => if has_content_line(f, old_side, cell.index) {
            Some(
                CellInfoView {
                    kind: LineType::Context,
                    lineno: Some(number_after(cell.index)),
                    source: TextSourceView::Content { index: cell.index },
                },
            )
        } else {
            None
        },
        Some((h, l)) => if 0 <= h < f.hunks.len() && 0 <= l < f.hunks[h].lines.len() {
            let line = f.hunks[h].lines[l];
            let own = if old_side {
                line.old_lineno
            } else {
                line.new_lineno
            };
            if mode == DiffMode::SideBySideFull && has_full_content(f) {
                Some(
                    CellInfoView {
                        kind: line.line_type,
                        lineno: match own {
                            Some(n) => Some(n),
                            None => Some(number_after(cell.index)),
                        },
                        source: if has_content_line(f, old_side, cell.index) && side_content(
                            f,
                            old_side,
                        )->0[cell.index] == line.content {
                            TextSourceView::Content { index: cell.index }
                        } else {
                            TextSourceView::HunkLine { hunk: h, line: l }
                        },
                    },
                )
            } else {
                Some(
                    CellInfoView {
                        kind: line.line_type,
                        lineno: if mode == DiffMode::Unified {
                            match line.new_lineno {
                                Some(n) => Some(n),
                                None => line.old_lineno,
                            }
                        } else {
                            own
                        },
                        source: TextSourceView::HunkLine { hunk: h, line: l },
                    },
                )
            }
        } else {
            None
        },
    }
}

/// A line number as a position.
fn as_number(n: Option<u32>) -> (number: Option<usize>)
    ensures
        match number {
            Some(v) => n == Some(v as u32) && v <= u32::MAX,
            None => n is None,
        },
{
    match n {
        Some(v) => Some(v as usize),
        None => None,
    }
}

/// The full content of a side of the file.
fn content_of(diff: &FileDiff, old_side: bool) -> (content: &Option<Vec<String>>)
    ensures
        crate::diff::content_view(*content) == side_content(diff@, old_side),
{
    if old_side {
        &diff.old_content
    } else {
        &diff.new_content
    }
}

/// What a cell of a row of the file shows in a layout, on the old or the
/// new side.
pub fn describe_cell(diff: &FileDiff, mode: DiffMode, old_side: bool, cell: Cell) -> (info: Option<
    CellInfo,
>)
    ensures
        match info {
            Some(i) => spec_describe_cell(diff@, mode, old_side, cell@) == Some(i@),
            None => spec_describe_cell(diff@, mode, old_side, cell@) is None,
        },
{
    let ghost f = diff@;
    let content = content_of(diff, old_side);
    match cell.line {
        None => {
            match content {
                Some(lines) => {
                    if cell.index < lines.len() {
                        return Some(
                            CellInfo {
                                kind: LineType::Context,
                                lineno: Some(cell.index.saturating_add(1)),
                                source: TextSource::Content { index: cell.index },
                            },
                        );
                    }
                    None
                },
                None => None,
            }
        },
        Some((h, l)) => {
            if h >= diff.hunks.len() {
                return None;
            }
            if l >= diff.hunks[h].lines.len() {
                assert(f.hunks[h as int].lines.len() == diff.hunks@[h as int].lines@.len());
                return None;
            }
            let line = &diff.hunks[h].lines[l];
            assert(f.hunks[h as int].lines.len() == diff.hunks@[h as int].lines@.len());
            assert(f.hunks[h as int].lines[l as int] == line@);
            let own = if old_side {
                as_number(line.old_lineno)
            } else {
                as_number(line.new_lineno)
            };
            let full = match mode {
                DiffMode::SideBySideFull => diff.old_content.is_some() && diff.new_content.is_some(),
                _ => false,
            };
            if full {
                let lineno = match own {
                    Some(n) => Some(n),
                    None => Some(cell.index.saturating_add(1)),
                };
                let mut source = TextSource::HunkLine { hunk: h, line: l };
                match content {
                    Some(lines) => {
                        if cell.index < lines.len() {
                            assert(lines_view(lines@)[cell.index as int] == lines@[cell.index as int]@);
                            if lines[cell.index] == line.content {
                                source = TextSource::Content { index: cell.index };
                            }
                        }
                    },
                    None => {},
                }
                Some(CellInfo { kind: line.line_type, lineno, source })
            } else {
                let lineno = match mode {
                    DiffMode::Unified => match as_number(line.new_lineno) {
                        Some(n) => Some(n),
                        None => as_number(line.old_lineno),
                    },
                    _ => own,
                };
                Some(
                    CellInfo {
                        kind: line.line_type,
                        lineno,
                        source: TextSource::HunkLine { hunk: h, line: l },
                    },
                )
            }
        },
    }
}

/// The texts of all hunk lines of a file, in order: what a tokenizer is
/// given once to prepare the hunk layouts of the file.
pub fn hunk_texts(diff: &FileDiff) -> (texts: Vec<&String>)
    ensures
        texts@.len() == crate::rows::lines_before(diff@.hunks, diff@.hunks.len() as int),
        forall|h: int, l: int|
            0 <= h < diff@.hunks.len() && 0 <= l < diff@.hunks[h].lines.len() ==> (
            #[trigger] texts@[crate::rows::lines_before(diff@.hunks, h) + l])@
                == diff@.hunks[h].lines[l].content,
{
    let ghost f = diff@;
    let mut texts: Vec<&String> = Vec::new();
    let mut h: usize = 0;
    while h < diff.hunks.len()
        invariant
            h <= diff.hunks@.len(),
            f == diff@,
            f.hunks.len() == diff.hunks@.len(),
            texts@.len() == crate::rows::lines_before(f.hunks, h as int),
            forall|a: int, b: int|
                0 <= a < h && 0 <= b < f.hunks[a].lines.len() ==> (
                #[trigger] texts@[crate::rows::lines_before(f.hunks, a) + b])@
                    == f.hunks[a].lines[b].content,
        decreases diff.hunks@.len() - h,
    {
        let ghost base = crate::rows::lines_before(f.hunks, h as int);
        let ghost before = texts@;
        assert(f.hunks[h as int].lines.len() == diff.hunks@[h as int].lines@.len());
        let mut l: usize = 0;
        while l < diff.hunks[h].lines.len()
            invariant
                h < diff.hunks@.len(),
                l <= diff.hunks@[h as int].lines@.len(),
                f == diff@,
                f.hunks.len() == diff.hunks@.len(),
                f.hunks[h as int].lines.len() == diff.hunks@[h as int].lines@.len(),
                base == crate::rows::lines_before(f.hunks, h as int),
                before.len() == base,
                texts@.len() == base + l,
                forall|k: int| 0 <= k < base ==> texts@[k] == before[k],
                forall|b: int|
                    0 <= b < l ==> (#[trigger] texts@[base + b])@ == f.hunks[h as int].lines[b].content,
            decreases diff.hunks@[h as int].lines@.len() - l,
        {
            assert(f.hunks[h as int].lines[l as int] == diff.hunks@[h as int].lines@[l as int]@);
            texts.push(&diff.hunks[h].lines[l].content);
            l += 1;
        }
        proof {
            assert forall|a: int, b: int|
                0 <= a < h + 1 && 0 <= b < f.hunks[a].lines.len() implies (
            #[trigger] texts@[crate::rows::lines_before(f.hunks, a) + b])@
                == f.hunks[a].lines[b].content by {
                if a < h {
                    crate::rows::lemma_lines_before_monotonic(f.hunks, a + 1, h as int);
                    assert(texts@[crate::rows::lines_before(f.hunks, a) + b] == before[
                        crate::rows::lines_before(f.hunks, a) + b
                    ]);
                }
            }
        }
        h += 1;
    }
    texts
}

} // verus!
