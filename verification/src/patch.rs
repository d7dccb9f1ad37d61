//! Building a diff set from the lines of a patch.
//!
//! A patch arrives as a stream of line events, each naming the file and the
//! hunk it belongs to. The builder groups them into files and hunks: a new
//! file starts where the path changes, a new hunk where the hunk header
//! changes.

use vstd::prelude::*;
use crate::diff::{
    DiffLine, DiffLineView, FileDiff, FileDiffView, Hunk, HunkView, LineType, count_kind,
    diff_lines_view, files_view, hunks_view, kinds_of, lineno_view, lines_of_kind, text_view,
};
use crate::text::{spec_trim, spec_trim_line_end, str_equal, trim, trim_line_end};

verus! {

/// The hunk that a line of a patch belongs to.
#[derive(Debug, Clone)]
pub struct HunkInfo {
    pub old_start: u32,
    pub old_count: u32,
    pub new_start: u32,
    pub new_count: u32,
    /// The header line as it stands in the patch.
    pub header: String,
}

/// One line of a patch, with the file and the hunk it belongs to.
#[derive(Debug, Clone)]
pub struct PatchLine {
    /// Path of the file after the change, where it has one.
    pub new_path: Option<String>,
    /// Path of the file before the change, where it has one.
    pub old_path: Option<String>,
    pub is_binary: bool,
    pub hunk: Option<HunkInfo>,
    /// The marker in front of the line: `+`, `-`, a blank, or another
    /// character for lines that are no content.
    pub origin: char,
    pub content: String,
    pub old_lineno: Option<u32>,
    pub new_lineno: Option<u32>,
}

/// The hunk of a patch line as a mathematical value.
pub struct HunkInfoView {
    pub old_start: nat,
    pub old_count: nat,
    pub new_start: nat,
    pub new_count: nat,
    pub header: Seq<char>,
}

/// A line of a patch as a mathematical value.
pub struct PatchLineView {
    pub new_path: Option<Seq<char>>,
    pub old_path: Option<Seq<char>>,
    pub is_binary: bool,
    pub hunk: Option<HunkInfoView>,
    pub origin: char,
    pub content: Seq<char>,
    pub old_lineno: Option<nat>,
    pub new_lineno: Option<nat>,
}

impl View for HunkInfo {
    type V = HunkInfoView;

    open spec fn view(&self) -> HunkInfoView {
        HunkInfoView {
            old_start: self.old_start as nat,
            old_count: self.old_count as nat,
            new_start: self.new_start as nat,
            new_count: self.new_count as nat,
            header: self.header@,
        }
    }
}

impl View for PatchLine {
    type V = PatchLineView;

    open spec fn view(&self) -> PatchLineView {
        PatchLineView {
            new_path: text_view(self.new_path),
            old_path: text_view(self.old_path),
            is_binary: self.is_binary,
            hunk: match self.hunk {
                Some(h) => Some(h@),
                None => None,
            },
            origin: self.origin,
            content: self.content@,
            old_lineno: lineno_view(self.old_lineno),
            new_lineno: lineno_view(self.new_lineno),
        }
    }
}

/// The views of a sequence of patch lines.
pub open spec fn patch_view(lines: Seq<PatchLine>) -> Seq<PatchLineView> {
    lines.map_values(|l: PatchLine| l@)
}

/// What has been built of a diff set: the files that are complete, the
/// file and the hunk under construction, and the header of the last hunk
/// seen in the file.
pub struct BuilderView {
    pub files: Seq<FileDiffView>,
    pub file: Option<FileDiffView>,
    pub hunk: Option<HunkView>,
    pub last_header: Option<Seq<char>>,
}

/// The kind of line that a marker stands for.
pub open spec fn kind_of_origin(origin: char) -> Option<LineType> {
    if origin == '+' {
        Some(LineType::Added)
    } else if origin == '-' {
        Some(LineType::Removed)
    } else if origin == ' ' {
        Some(LineType::Context)
    } else {
        None
    }
}

/// The file with the hunk under construction added, where there is one.
pub open spec fn close_hunk(file: FileDiffView, hunk: Option<HunkView>) -> FileDiffView {
    match hunk {
        Some(h) => FileDiffView { hunks: file.hunks.push(h), ..file },
        None => file,
    }
}

/// A file without hunks, as a patch line introduces it. The old path is
/// kept only where it differs from the new one.
pub open spec fn new_file(line: PatchLineView, path: Seq<char>) -> FileDiffView {
    FileDiffView {
        path: path,
        old_path: match line.old_path {
            Some(p) => if p != path {
                Some(p)
            } else {
                None
            },
            None => None,
        },
        old_content: None,
        new_content: None,
        added: 0,
        removed: 0,
        hunks: Seq::empty(),
        collapsed: false,
        is_binary: line.is_binary,
    }
}

impl BuilderView {
    /// A builder that has seen nothing.
    pub open spec fn empty() -> BuilderView {
        BuilderView { files: Seq::empty(), file: None, hunk: None, last_header: None }
    }

    /// The builder after the file of `line` was looked at: a path other
    /// than that of the file under construction completes that file and
    /// starts a new one.
    pub open spec fn see_file(self, line: PatchLineView) -> BuilderView {
        match line.new_path {
            Some(path) => if self.file is None || self.file->0.path != path {
                BuilderView {
                    files: match self.file {
                        Some(f) => self.files.push(close_hunk(f, self.hunk)),
                        None => self.files,
                    },
                    file: Some(new_file(line, path)),
                    hunk: None,
                    last_header: None,
                }
            } else {
                self
            },
            None => self,
        }
    }

    /// The builder after the hunk of `line` was looked at: a header other
    /// than the last one seen completes the hunk under construction and
    /// starts a new one.
    pub open spec fn see_hunk(self, line: PatchLineView) -> BuilderView {
        match line.hunk {
            Some(h) => {
                let header = spec_trim(h.header);
                if self.last_header != Some(header) {
                    BuilderView {
                        file: match self.file {
                            Some(f) => Some(close_hunk(f, self.hunk)),
                            None => None,
                        },
                        hunk: Some(
                            HunkView {
                                old_start: h.old_start,
                                old_count: h.old_count,
                                new_start: h.new_start,
                                new_count: h.new_count,
                                header: header,
                                lines: Seq::empty(),
                            },
                        ),
                        last_header: Some(header),
                        ..self
                    }
                } else {
                    self
                }
            },
            None => self,
        }
    }

    /// The builder after the content of `line` was taken: an added, removed
    /// or context line joins the hunk under construction, and an added or
    /// removed line counts for the file under construction.
    pub open spec fn see_line(self, line: PatchLineView) -> BuilderView {
        match kind_of_origin(line.origin) {
            Some(kind) => BuilderView {
                hunk: match self.hunk {
                    Some(h) => Some(
                        HunkView {
                            lines: h.lines.push(
                                DiffLineView {
                                    line_type: kind,
                                    content: spec_trim_line_end(line.content),
                                    old_lineno: line.old_lineno,
                                    new_lineno: line.new_lineno,
                                },
                            ),
                            ..h
                        },
                    ),
                    None => None,
                },
                file: match self.file {
                    Some(f) => Some(
                        FileDiffView {
                            added: if kind == LineType::Added {
                                f.added + 1
                            } else {
                                f.added
                            },
                            removed: if kind == LineType::Removed {
                                f.removed + 1
                            } else {
                                f.removed
                            },
                            ..f
                        },
                    ),
                    None => None,
                },
                ..self
            },
            None => self,
        }
    }

    /// The builder after a line of the patch.
    pub open spec fn push(self, line: PatchLineView) -> BuilderView {
        self.see_file(line).see_hunk(line).see_line(line)
    }

    /// The diff set once the patch has ended: the complete files and the
    /// file under construction with its last hunk.
    pub open spec fn finish(self) -> Seq<FileDiffView> {
        match self.file {
            Some(f) => self.files.push(close_hunk(f, self.hunk)),
            None => self.files,
        }
    }

    /// The builder after the first `n` lines of a patch.
    pub open spec fn after(lines: Seq<PatchLineView>, n: int) -> BuilderView
        decreases n,
    {
        if n <= 0 || n > lines.len() {
            BuilderView::empty()
        } else {
            BuilderView::after(lines, n - 1).push(lines[n - 1])
        }
    }
}

/// The diff set of a patch.
pub open spec fn spec_parse_patch(lines: Seq<PatchLineView>) -> Seq<FileDiffView> {
    BuilderView::after(lines, lines.len() as int).finish()
}

/// Groups the lines of a patch into files and hunks.
pub struct DiffBuilder {
    files: Vec<FileDiff>,
    file: Option<FileDiff>,
    hunk: Option<Hunk>,
    last_header: Option<String>,
    /// Number of lines taken.
    seen: usize,
}

impl View for DiffBuilder {
    type V = BuilderView;

    closed spec fn view(&self) -> BuilderView {
        BuilderView {
            files: files_view(self.files@),
            file: match self.file {
                Some(f) => Some(f@),
                None => None,
            },
            hunk: match self.hunk {
                Some(h) => Some(h@),
                None => None,
            },
            last_header: text_view(self.last_header),
        }
    }
}

impl DiffBuilder {
    /// The totals of the file under construction are at most the number of
    /// lines taken.
    pub closed spec fn wf(&self) -> bool {
        self.file matches Some(f) ==> f.added <= self.seen && f.removed <= self.seen
    }

    /// Number of lines taken.
    pub closed spec fn seen(&self) -> nat {
        self.seen as nat
    }

    /// A builder that has seen nothing.
    pub fn new() -> (builder: DiffBuilder)
        ensures
            builder@ == BuilderView::empty(),
            builder.wf(),
            builder.seen() == 0,
    {
        let builder = DiffBuilder {
            files: Vec::new(),
            file: None,
            hunk: None,
            last_header: None,
            seen: 0,
        };
        assert(files_view(builder.files@) =~= Seq::<FileDiffView>::empty());
        builder
    }

    /// Moves the hunk under construction into the file under construction.
    fn close_hunk(&mut self)
        requires
            old(self).wf(),
        ensures
            final(self).wf(),
            final(self).seen() == old(self).seen(),
            final(self)@ == (BuilderView {
                file: match old(self)@.file {
                    Some(f) => Some(close_hunk(f, old(self)@.hunk)),
                    None => None,
                },
                hunk: None,
                ..old(self)@
            }),
    {
        let hunk = self.hunk.take();
        let file = self.file.take();
        match file {
            Some(mut f) => {
                match hunk {
                    Some(h) => {
                        let ghost before = f.hunks@;
                        f.hunks.push(h);
                        assert(hunks_view(f.hunks@) =~= hunks_view(before).push(h@));
                    },
                    None => {},
                }
                self.file = Some(f);
            },
            None => {},
        }
    }

    /// Looks at the file of a line.
    fn see_file(&mut self, line: &PatchLine)
        requires
            old(self).wf(),
        ensures
            final(self).wf(),
            final(self).seen() == old(self).seen(),
            final(self)@ == old(self)@.see_file(line@),
    {
        let path = match &line.new_path {
            Some(p) => p,
            None => {
                return;
            },
        };
        let same = match &self.file {
            Some(f) => str_equal(f.path.as_str(), path.as_str()),
            None => false,
        };
        if same {
            return;
        }
        self.close_hunk();
        match self.file.take() {
            Some(f) => {
                let ghost before = self.files@;
                self.files.push(f);
                assert(files_view(self.files@) =~= files_view(before).push(f@));
            },
            None => {},
        }
        let old_path = match &line.old_path {
            Some(p) => if !str_equal(p.as_str(), path.as_str()) {
                Some(p.clone())
            } else {
                None
            },
            None => None,
        };
        let file = FileDiff {
            path: path.clone(),
            old_path,
            old_content: None,
            new_content: None,
            added: 0,
            removed: 0,
            hunks: Vec::new(),
            collapsed: false,
            is_binary: line.is_binary,
        };
        assert(hunks_view(file.hunks@) =~= Seq::<HunkView>::empty());
        self.file = Some(file);
        self.last_header = None;
    }

    /// Looks at the hunk of a line.
    fn see_hunk(&mut self, line: &PatchLine)
        requires
            old(self).wf(),
        ensures
            final(self).wf(),
            final(self).seen() == old(self).seen(),
            final(self)@ == old(self)@.see_hunk(line@),
    {
        let info = match &line.hunk {
            Some(h) => h,
            None => {
                return;
            },
        };
        let header = trim(info.header.as_str());
        let same = match &self.last_header {
            Some(last) => str_equal(last.as_str(), header.as_str()),
            None => false,
        };
        if same {
            return;
        }
        self.close_hunk();
        let hunk = Hunk {
            old_start: info.old_start,
            old_count: info.old_count,
            new_start: info.new_start,
            new_count: info.new_count,
            header: header.clone(),
            lines: Vec::new(),
        };
        assert(diff_lines_view(hunk.lines@) =~= Seq::<DiffLineView>::empty());
        self.hunk = Some(hunk);
        self.last_header = Some(header);
    }

    /// Takes the content of a line.
    fn see_line(&mut self, line: &PatchLine)
        requires
            old(self).wf(),
            old(self).seen() < usize::MAX,
        ensures
            final(self).wf(),
            final(self).seen() == old(self).seen() + 1,
            final(self)@ == old(self)@.see_line(line@),
    {
        self.seen = self.seen + 1;
        let kind = if line.origin == '+' {
            LineType::Added
        } else if line.origin == '-' {
            LineType::Removed
        } else if line.origin == ' ' {
            LineType::Context
        } else {
            return;
        };
        let diff_line = DiffLine {
            line_type: kind,
            content: trim_line_end(line.content.as_str()),
            old_lineno: line.old_lineno,
            new_lineno: line.new_lineno,
        };
        match self.hunk.take() {
            Some(mut h) => {
                let ghost before = h.lines@;
                h.lines.push(diff_line);
                assert(diff_lines_view(h.lines@) =~= diff_lines_view(before).push(diff_line@));
                self.hunk = Some(h);
            },
            None => {},
        }
        match self.file.take() {
            Some(mut f) => {
                match kind {
                    LineType::Added => {
                        f.added = f.added + 1;
                    },
                    LineType::Removed => {
                        f.removed = f.removed + 1;
                    },
                    _ => {},
                }
                self.file = Some(f);
            },
            None => {},
        }
    }

    /// Takes a line of the patch.
    pub fn push(&mut self, line: &PatchLine)
        requires
            old(self).wf(),
            old(self).seen() < usize::MAX,
        ensures
            final(self).wf(),
            final(self).seen() == old(self).seen() + 1,
            final(self)@ == old(self)@.push(line@),
    {
        self.see_file(line);
        self.see_hunk(line);
        self.see_line(line);
    }

    /// The diff set once the patch has ended.
    pub fn finish(self) -> (files: Vec<FileDiff>)
        requires
            self.wf(),
        ensures
            files_view(files@) == self@.finish(),
    {
        let mut builder = self;
        builder.close_hunk();
        let mut files = builder.files;
        match builder.file {
            Some(f) => {
                let ghost before = files@;
                files.push(f);
                assert(files_view(files@) =~= files_view(before).push(f@));
            },
            None => {},
        }
        files
    }
}

/// The diff set of a patch. Where every content line of the patch names
/// its file and its hunk, the totals of each file are those of its added
/// and removed lines.
pub fn parse_patch(lines: &[PatchLine]) -> (files: Vec<FileDiff>)
    ensures
        files_view(files@) == spec_parse_patch(patch_view(lines@)),
        (forall|i: int| 0 <= i < lines@.len() ==> content_in_hunk(#[trigger] patch_view(lines@)[i]))
            ==> forall|k: int|
            0 <= k < files@.len() ==> (#[trigger] files_view(files@)[k]).totals_match(),
{
    let ghost views = patch_view(lines@);
    let mut builder = DiffBuilder::new();
    let mut i: usize = 0;
    while i < lines.len()
        invariant
            i <= lines@.len(),
            views == patch_view(lines@),
            builder.wf(),
            builder.seen() == i,
            builder@ == BuilderView::after(views, i as int),
        decreases lines@.len() - i,
    {
        builder.push(&lines[i]);
        i += 1;
    }
    proof {
        if forall|i: int| 0 <= i < lines@.len() ==> content_in_hunk(#[trigger] views[i]) {
            lemma_parse_patch_totals(views);
        }
    }
    builder.finish()
}

/// A line of content names its file and its hunk.
pub open spec fn content_in_hunk(line: PatchLineView) -> bool {
    kind_of_origin(line.origin) is Some ==> line.new_path is Some && line.hunk is Some
}

/// Lines of kind `kind` in the hunk under construction.
pub open spec fn pending_lines(hunk: Option<HunkView>, kind: LineType) -> nat {
    match hunk {
        Some(h) => count_kind(kinds_of(h.lines), h.lines.len() as int, kind),
        None => 0,
    }
}

/// The totals of the complete files match their lines, the totals of the
/// file under construction are those of its hunks and of the hunk under
/// construction, and a hunk is under construction wherever a header was
/// seen.
pub open spec fn totals_so_far(b: BuilderView) -> bool {
    &&& forall|i: int| 0 <= i < b.files.len() ==> (#[trigger] b.files[i]).totals_match()
    &&& b.file matches Some(f) ==> {
        &&& f.added == lines_of_kind(f.hunks, f.hunks.len() as int, LineType::Added)
            + pending_lines(b.hunk, LineType::Added)
        &&& f.removed == lines_of_kind(f.hunks, f.hunks.len() as int, LineType::Removed)
            + pending_lines(b.hunk, LineType::Removed)
    }
    &&& b.last_header is Some ==> b.hunk is Some
}

/// A hunk more leaves the lines of the hunks before it.
proof fn lemma_lines_of_kind_push(hunks: Seq<HunkView>, hunk: HunkView, n: int, kind: LineType)
    requires
        0 <= n <= hunks.len(),
    ensures
        lines_of_kind(hunks.push(hunk), n, kind) == lines_of_kind(hunks, n, kind),
    decreases n,
{
    if n > 0 {
        lemma_lines_of_kind_push(hunks, hunk, n - 1, kind);
    }
}

/// A file that takes its hunk under construction has the totals of its
/// hunks.
proof fn lemma_close_hunk_totals(f: FileDiffView, hunk: Option<HunkView>, kind: LineType)
    ensures
        lines_of_kind(close_hunk(f, hunk).hunks, close_hunk(f, hunk).hunks.len() as int, kind)
            == lines_of_kind(f.hunks, f.hunks.len() as int, kind) + pending_lines(hunk, kind),
{
    if let Some(h) = hunk {
        lemma_lines_of_kind_push(f.hunks, h, f.hunks.len() as int, kind);
    }
}

/// A line keeps the totals in step with the lines.
proof fn lemma_push_keeps_totals(b: BuilderView, line: PatchLineView)
    requires
        totals_so_far(b),
        content_in_hunk(line),
    ensures
        totals_so_far(b.push(line)),
{
    let seen_file = b.see_file(line);
    if let Some(f) = b.file {
        lemma_close_hunk_totals(f, b.hunk, LineType::Added);
        lemma_close_hunk_totals(f, b.hunk, LineType::Removed);
    }
    assert(totals_so_far(seen_file)) by {
        if let Some(path) = line.new_path {
            if b.file is None || b.file->0.path != path {
                assert(new_file(line, path).hunks.len() == 0);
                assert forall|i: int| 0 <= i < seen_file.files.len() implies (
                #[trigger] seen_file.files[i]).totals_match() by {
                    if i < b.files.len() {
                        assert(seen_file.files[i] == b.files[i]);
                    }
                }
            }
        }
    }
    let seen_hunk = seen_file.see_hunk(line);
    if let Some(f) = seen_file.file {
        lemma_close_hunk_totals(f, seen_file.hunk, LineType::Added);
        lemma_close_hunk_totals(f, seen_file.hunk, LineType::Removed);
    }
    assert(totals_so_far(seen_hunk));
    let after = seen_hunk.see_line(line);
    if let Some(kind) = kind_of_origin(line.origin) {
        assert(seen_hunk.hunk is Some);
        let h = seen_hunk.hunk->0;
        let pushed = after.hunk->0;
        assert(kinds_of(pushed.lines) =~= kinds_of(h.lines).push(kind));
        lemma_count_push(kinds_of(h.lines), kind, h.lines.len() as int, LineType::Added);
        lemma_count_push(kinds_of(h.lines), kind, h.lines.len() as int, LineType::Removed);
    }
}

/// A line more leaves the count of the lines before it.
proof fn lemma_count_push(kinds: Seq<LineType>, last: LineType, n: int, kind: LineType)
    requires
        0 <= n <= kinds.len(),
    ensures
        count_kind(kinds.push(last), n, kind) == count_kind(kinds, n, kind),
    decreases n,
{
    if n > 0 {
        lemma_count_push(kinds, last, n - 1, kind);
    }
}

proof fn lemma_after_keeps_totals(lines: Seq<PatchLineView>, n: int)
    requires
        0 <= n <= lines.len(),
        forall|i: int| 0 <= i < lines.len() ==> content_in_hunk(#[trigger] lines[i]),
    ensures
        totals_so_far(BuilderView::after(lines, n)),
    decreases n,
{
    if n > 0 {
        lemma_after_keeps_totals(lines, n - 1);
        lemma_push_keeps_totals(BuilderView::after(lines, n - 1), lines[n - 1]);
    }
}

/// In the diff set of a patch whose content lines all name their file and
/// hunk, the totals of every file are those of its added and removed
/// lines.
pub proof fn lemma_parse_patch_totals(lines: Seq<PatchLineView>)
    requires
        forall|i: int| 0 <= i < lines.len() ==> content_in_hunk(#[trigger] lines[i]),
    ensures
        forall|k: int|
            0 <= k < spec_parse_patch(lines).len() ==> (#[trigger] spec_parse_patch(
                lines,
            )[k]).totals_match(),
{
    let b = BuilderView::after(lines, lines.len() as int);
    lemma_after_keeps_totals(lines, lines.len() as int);
    let files = spec_parse_patch(lines);
    if let Some(f) = b.file {
        lemma_close_hunk_totals(f, b.hunk, LineType::Added);
        lemma_close_hunk_totals(f, b.hunk, LineType::Removed);
    }
    assert forall|k: int| 0 <= k < files.len() implies (#[trigger] files[k]).totals_match() by {
        if k < b.files.len() {
            assert(files[k] == b.files[k]);
        }
    }
}

} // verus!
