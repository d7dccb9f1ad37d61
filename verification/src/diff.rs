//! The diff model: lines, hunks and per-file change sets, with their
//! mathematical views.

use vstd::prelude::*;

verus! {

/// Kind of a line inside a hunk.
#[derive(Debug, Clone, Copy, PartialEq, Eq, Structural)]
pub enum LineType {
    /// Present on both sides.
    Context,
    /// Present on the new side only.
    Added,
    /// Present on the old side only.
    Removed,
    /// A header line carried inside a hunk; it never occupies a row.
    Header,
}

/// One line of a hunk.
#[derive(Debug, Clone)]
pub struct DiffLine {
    pub line_type: LineType,
    /// Text of the line, without its `+`/`-` prefix.
    pub content: String,
    pub old_lineno: Option<u32>,
    pub new_lineno: Option<u32>,
}

/// A contiguous region of change.
#[derive(Debug, Clone)]
pub struct Hunk {
    pub old_start: u32,
    pub old_count: u32,
    pub new_start: u32,
    pub new_count: u32,
    pub header: String,
    pub lines: Vec<DiffLine>,
}

/// The change set of one file.
#[derive(Debug, Clone)]
pub struct FileDiff {
    /// Path after the change.
    pub path: String,
    /// Path before the change, when the file was renamed or moved.
    pub old_path: Option<String>,
    pub old_content: Option<Vec<String>>,
    pub new_content: Option<Vec<String>>,
    pub added: usize,
    pub removed: usize,
    pub hunks: Vec<Hunk>,
    pub collapsed: bool,
    pub is_binary: bool,
}

/// A line of a hunk as a mathematical value.
pub struct DiffLineView {
    pub line_type: LineType,
    pub content: Seq<char>,
    pub old_lineno: Option<nat>,
    pub new_lineno: Option<nat>,
}

/// A hunk as a mathematical value.
pub struct HunkView {
    pub old_start: nat,
    pub old_count: nat,
    pub new_start: nat,
    pub new_count: nat,
    pub header: Seq<char>,
    pub lines: Seq<DiffLineView>,
}

/// The change set of a file as a mathematical value.
pub struct FileDiffView {
    pub path: Seq<char>,
    pub old_path: Option<Seq<char>>,
    pub old_content: Option<Seq<Seq<char>>>,
    pub new_content: Option<Seq<Seq<char>>>,
    pub added: nat,
    pub removed: nat,
    pub hunks: Seq<HunkView>,
    pub collapsed: bool,
    pub is_binary: bool,
}

/// An optional line number as a natural number.
pub open spec fn lineno_view(n: Option<u32>) -> Option<nat> {
    match n {
        Some(v) => Some(v as nat),
        None => None,
    }
}

/// The characters of an optional text.
pub open spec fn text_view(s: Option<String>) -> Option<Seq<char>> {
    match s {
        Some(v) => Some(v@),
        None => None,
    }
}

/// The lines of a text as character sequences.
pub open spec fn lines_view(lines: Seq<String>) -> Seq<Seq<char>> {
    lines.map_values(|s: String| s@)
}

/// The lines of an optional full content.
pub open spec fn content_view(c: Option<Vec<String>>) -> Option<Seq<Seq<char>>> {
    match c {
        Some(v) => Some(lines_view(v@)),
        None => None,
    }
}

impl View for DiffLine {
    type V = DiffLineView;

    open spec fn view(&self) -> DiffLineView {
        DiffLineView {
            line_type: self.line_type,
            content: self.content@,
            old_lineno: lineno_view(self.old_lineno),
            new_lineno: lineno_view(self.new_lineno),
        }
    }
}

/// The views of a sequence of diff lines.
pub open spec fn diff_lines_view(lines: Seq<DiffLine>) -> Seq<DiffLineView> {
    lines.map_values(|l: DiffLine| l@)
}

impl View for Hunk {
    type V = HunkView;

    open spec fn view(&self) -> HunkView {
        HunkView {
            old_start: self.old_start as nat,
            old_count: self.old_count as nat,
            new_start: self.new_start as nat,
            new_count: self.new_count as nat,
            header: self.header@,
            lines: diff_lines_view(self.lines@),
        }
    }
}

/// The views of a sequence of hunks.
pub open spec fn hunks_view(hunks: Seq<Hunk>) -> Seq<HunkView> {
    hunks.map_values(|h: Hunk| h@)
}

impl View for FileDiff {
    type V = FileDiffView;

    open spec fn view(&self) -> FileDiffView {
        FileDiffView {
            path: self.path@,
            old_path: text_view(self.old_path),
            old_content: content_view(self.old_content),
            new_content: content_view(self.new_content),
            added: self.added as nat,
            removed: self.removed as nat,
            hunks: hunks_view(self.hunks@),
            collapsed: self.collapsed,
            is_binary: self.is_binary,
        }
    }
}

/// The views of a list of files.
pub open spec fn files_view(files: Seq<FileDiff>) -> Seq<FileDiffView> {
    files.map_values(|f: FileDiff| f@)
}

/// The views of a list of borrowed files.
pub open spec fn file_refs_view(files: Seq<&FileDiff>) -> Seq<FileDiffView> {
    files.map_values(|f: &FileDiff| f@)
}

/// The kinds of a sequence of lines, in order.
pub open spec fn kinds_of(lines: Seq<DiffLineView>) -> Seq<LineType> {
    lines.map_values(|l: DiffLineView| l.line_type)
}

/// A kind that has a line on the old side.
pub open spec fn on_old_side(kind: LineType) -> bool {
    kind == LineType::Context || kind == LineType::Removed
}

/// A kind that has a line on the new side.
pub open spec fn on_new_side(kind: LineType) -> bool {
    kind == LineType::Context || kind == LineType::Added
}

/// Number of lines of kind `kind` among the first `n`.
pub open spec fn count_kind(kinds: Seq<LineType>, n: int, kind: LineType) -> nat
    decreases n,
{
    if n <= 0 || n > kinds.len() {
        0
    } else {
        count_kind(kinds, n - 1, kind) + if kinds[n - 1] == kind {
            1nat
        } else {
            0nat
        }
    }
}

/// Number of old-side lines among the first `n`.
pub open spec fn old_side_count(kinds: Seq<LineType>, n: int) -> nat {
    count_kind(kinds, n, LineType::Context) + count_kind(kinds, n, LineType::Removed)
}

/// Number of new-side lines among the first `n`.
pub open spec fn new_side_count(kinds: Seq<LineType>, n: int) -> nat {
    count_kind(kinds, n, LineType::Context) + count_kind(kinds, n, LineType::Added)
}

/// Among the first `n` lines at most `n` are of one kind.
pub proof fn lemma_count_kind_bound(kinds: Seq<LineType>, n: int, kind: LineType)
    requires
        0 <= n <= kinds.len(),
    ensures
        count_kind(kinds, n, kind) <= n,
        old_side_count(kinds, n) <= n,
        new_side_count(kinds, n) <= n,
    decreases n,
{
    if n > 0 {
        lemma_count_kind_bound(kinds, n - 1, kind);
        lemma_count_kind_bound(kinds, n - 1, LineType::Context);
        lemma_count_kind_bound(kinds, n - 1, LineType::Removed);
        lemma_count_kind_bound(kinds, n - 1, LineType::Added);
    }
}

impl DiffLineView {
    /// A line carries an old number exactly when it exists on the old side,
    /// and a new number exactly when it exists on the new side.
    pub open spec fn wf(self) -> bool {
        &&& self.old_lineno is Some <==> on_old_side(self.line_type)
        &&& self.new_lineno is Some <==> on_new_side(self.line_type)
    }
}

impl HunkView {
    /// Every line is well formed, and the recorded counts are those of the
    /// lines that carry an old, respectively a new, line number.
    pub open spec fn wf(self) -> bool {
        &&& forall|i: int| 0 <= i < self.lines.len() ==> (#[trigger] self.lines[i]).wf()
        &&& self.old_count == old_side_count(kinds_of(self.lines), self.lines.len() as int)
        &&& self.new_count == new_side_count(kinds_of(self.lines), self.lines.len() as int)
    }
}

/// Number of lines of kind `kind` in the first `n` hunks.
pub open spec fn lines_of_kind(hunks: Seq<HunkView>, n: int, kind: LineType) -> nat
    decreases n,
{
    if n <= 0 || n > hunks.len() {
        0
    } else {
        lines_of_kind(hunks, n - 1, kind) + count_kind(
            kinds_of(hunks[n - 1].lines),
            hunks[n - 1].lines.len() as int,
            kind,
        )
    }
}

impl FileDiffView {
    /// Hunks are well formed and ascend by their old start, a binary file
    /// has neither hunks nor content, and the recorded totals are those of
    /// the added and removed lines.
    pub open spec fn wf(self) -> bool {
        &&& forall|i: int| 0 <= i < self.hunks.len() ==> (#[trigger] self.hunks[i]).wf()
        &&& forall|i: int, j: int|
            0 <= i < j < self.hunks.len() ==> (#[trigger] self.hunks[i]).old_start <= (
            #[trigger] self.hunks[j]).old_start
        &&& self.is_binary ==> self.hunks.len() == 0 && self.old_content is None
            && self.new_content is None
        &&& self.totals_match()
    }

    /// The recorded totals are those of the added and removed lines.
    pub open spec fn totals_match(self) -> bool {
        &&& self.added == lines_of_kind(self.hunks, self.hunks.len() as int, LineType::Added)
        &&& self.removed == lines_of_kind(self.hunks, self.hunks.len() as int, LineType::Removed)
    }
}

/// Sum of the `added` counts of the first `n` files.
pub open spec fn total_added(files: Seq<FileDiffView>, n: int) -> nat
    decreases n,
{
    if n <= 0 || n > files.len() {
        0
    } else {
        total_added(files, n - 1) + files[n - 1].added
    }
}

/// Sum of the `removed` counts of the first `n` files.
pub open spec fn total_removed(files: Seq<FileDiffView>, n: int) -> nat
    decreases n,
{
    if n <= 0 || n > files.len() {
        0
    } else {
        total_removed(files, n - 1) + files[n - 1].removed
    }
}

/// Added and removed line totals over a list of files.
pub fn compute_stats(diffs: &[FileDiff]) -> (stats: (usize, usize))
    requires
        total_added(files_view(diffs@), diffs@.len() as int) <= usize::MAX,
        total_removed(files_view(diffs@), diffs@.len() as int) <= usize::MAX,
    ensures
        stats.0 == total_added(files_view(diffs@), diffs@.len() as int),
        stats.1 == total_removed(files_view(diffs@), diffs@.len() as int),
{
    let ghost files = files_view(diffs@);
    let mut added: usize = 0;
    let mut removed: usize = 0;
    let mut i: usize = 0;
    while i < diffs.len()
        invariant
            i <= diffs@.len(),
            files == files_view(diffs@),
            added == total_added(files, i as int),
            removed == total_removed(files, i as int),
            total_added(files, diffs@.len() as int) <= usize::MAX,
            total_removed(files, diffs@.len() as int) <= usize::MAX,
        decreases diffs@.len() - i,
    {
        proof {
            lemma_total_added_monotonic(files, i as int + 1, diffs@.len() as int);
            lemma_total_removed_monotonic(files, i as int + 1, diffs@.len() as int);
        }
        added = added + diffs[i].added;
        removed = removed + diffs[i].removed;
        i += 1;
    }
    (added, removed)
}

/// The added lines of more files are no fewer.
pub proof fn lemma_total_added_monotonic(files: Seq<FileDiffView>, m: int, n: int)
    requires
        0 <= m <= n <= files.len(),
    ensures
        total_added(files, m) <= total_added(files, n),
    decreases n - m,
{
    if m < n {
        lemma_total_added_monotonic(files, m, n - 1);
    }
}

/// The removed lines of more files are no fewer.
pub proof fn lemma_total_removed_monotonic(files: Seq<FileDiffView>, m: int, n: int)
    requires
        0 <= m <= n <= files.len(),
    ensures
        total_removed(files, m) <= total_removed(files, n),
    decreases n - m,
{
    if m < n {
        lemma_total_removed_monotonic(files, m, n - 1);
    }
}

} // verus!
