use gv::cells::{describe_cell, hunk_texts, CellInfo, TextSource};
use gv::diff::{compute_stats, DiffLine, FileDiff, Hunk, LineType};
use gv::index::{
    calculate_total_lines, clamp_max_scroll, file_at, file_line_count, full_line_count, next_file,
    prev_file, scroll_offset_of, DiffMode,
};
use gv::pairing::{pair_indices, pair_lines_with_index, paired_row_count, shown_line_count};
use gv::rows::{file_rows, visible_rows, Cell, PlacedRow, Row};

fn line(kind: LineType, text: &str, old: Option<u32>, new: Option<u32>) -> DiffLine {
    DiffLine { line_type: kind, content: text.to_string(), old_lineno: old, new_lineno: new }
}

fn texts(lines: &[&str]) -> Option<Vec<String>> {
    Some(lines.iter().map(|l| l.to_string()).collect())
}

/// A file of seven old and six new lines with one hunk at line 3:
/// context, two removed lines, one added line, context.
fn sample() -> FileDiff {
    FileDiff {
        path: "src/sample.rs".to_string(),
        old_path: None,
        old_content: texts(&["l1", "l2", "c1", "r1", "r2", "c2", "l7"]),
        new_content: texts(&["l1", "l2", "c1", "a1", "c2", "l7"]),
        added: 1,
        removed: 2,
        hunks: vec![Hunk {
            old_start: 3,
            old_count: 4,
            new_start: 3,
            new_count: 3,
            header: "@@ -3,4 +3,3 @@".to_string(),
            lines: vec![
                line(LineType::Context, "c1", Some(3), Some(3)),
                line(LineType::Removed, "r1", Some(4), None),
                line(LineType::Removed, "r2", Some(5), None),
                line(LineType::Added, "a1", None, Some(4)),
                line(LineType::Context, "c2", Some(6), Some(5)),
            ],
        }],
        collapsed: false,
        is_binary: false,
    }
}

fn hunk_cell(line: usize, index: usize) -> Option<Cell> {
    Some(Cell { line: Some((0, line)), index })
}

fn content_cell(index: usize) -> Option<Cell> {
    Some(Cell { line: None, index })
}

#[test]
fn unified_rows_are_one_per_line() {
    let rows = file_rows(&sample(), DiffMode::Unified);
    let mut expected = vec![Row::FileHeader, Row::HunkHeader { hunk: 0 }];
    for l in 0..5 {
        expected.push(Row::Line { cell: Cell { line: Some((0, l)), index: l } });
    }
    assert_eq!(rows, expected);
    assert_eq!(file_line_count(&sample(), DiffMode::Unified), 7);
}

#[test]
fn side_by_side_rows_pair_removed_with_added() {
    let rows = file_rows(&sample(), DiffMode::SideBySide);
    assert_eq!(
        rows,
        vec![
            Row::FileHeader,
            Row::HunkHeader { hunk: 0 },
            Row::Pair { left: hunk_cell(0, 0), right: hunk_cell(0, 0) },
            Row::Pair { left: hunk_cell(1, 1), right: hunk_cell(3, 3) },
            Row::Pair { left: hunk_cell(2, 2), right: None },
            Row::Pair { left: hunk_cell(4, 4), right: hunk_cell(4, 4) },
        ]
    );
    assert_eq!(file_line_count(&sample(), DiffMode::SideBySide), 6);
}

#[test]
fn full_file_rows_walk_both_sides() {
    let rows = file_rows(&sample(), DiffMode::SideBySideFull);
    assert_eq!(
        rows,
        vec![
            Row::FileHeader,
            Row::Pair { left: content_cell(0), right: content_cell(0) },
            Row::Pair { left: content_cell(1), right: content_cell(1) },
            Row::Pair { left: hunk_cell(0, 2), right: hunk_cell(0, 2) },
            Row::Pair { left: hunk_cell(1, 3), right: hunk_cell(3, 3) },
            Row::Pair { left: hunk_cell(2, 4), right: None },
            Row::Pair { left: hunk_cell(4, 5), right: hunk_cell(4, 4) },
            Row::Pair { left: content_cell(6), right: content_cell(5) },
        ]
    );
    // The index counts the longer side and the added lines.
    assert_eq!(full_line_count(&sample()), 8);
    assert_eq!(file_line_count(&sample(), DiffMode::SideBySideFull), 9);
}

#[test]
fn full_file_layout_without_full_content_shows_the_hunks() {
    let mut file = sample();
    file.old_content = None;
    let rows = file_rows(&file, DiffMode::SideBySideFull);
    assert_eq!(
        rows,
        vec![
            Row::FileHeader,
            Row::Pair { left: hunk_cell(0, 0), right: hunk_cell(0, 0) },
            Row::Pair { left: hunk_cell(1, 1), right: hunk_cell(3, 3) },
            Row::Pair { left: hunk_cell(2, 2), right: None },
            Row::Pair { left: hunk_cell(4, 4), right: hunk_cell(4, 4) },
        ]
    );
    assert_eq!(file_line_count(&file, DiffMode::SideBySideFull), 5);
}

#[test]
fn collapsed_and_binary_files_are_one_row() {
    for mode in [DiffMode::Unified, DiffMode::SideBySide, DiffMode::SideBySideFull] {
        let mut file = sample();
        file.collapsed = true;
        assert_eq!(file_rows(&file, mode), vec![Row::FileHeader]);
        assert_eq!(file_line_count(&file, mode), 1);
        let mut file = sample();
        file.is_binary = true;
        assert_eq!(file_rows(&file, mode), vec![Row::FileHeader]);
        assert_eq!(file_line_count(&file, mode), 1);
    }
}

#[test]
fn a_hunk_start_before_the_cursor_or_behind_the_content_fills_nothing() {
    let mut file = sample();
    let second = Hunk {
        old_start: 2,
        old_count: 1,
        new_start: 40,
        new_count: 1,
        header: String::new(),
        lines: vec![line(LineType::Context, "c2", Some(2), Some(40))],
    };
    file.hunks.push(second);
    let rows = file_rows(&file, DiffMode::SideBySideFull);
    // After the first hunk the cursors stand at 6 and 5; the second hunk
    // moves neither back nor out of the content, and its line is the last
    // of either side.
    assert_eq!(rows.len(), 8);
    assert_eq!(
        rows[7],
        Row::Pair {
            left: Some(Cell { line: Some((1, 0)), index: 6 }),
            right: Some(Cell { line: Some((1, 0)), index: 5 }),
        }
    );
}

#[test]
fn header_lines_take_no_row() {
    let lines = vec![
        line(LineType::Removed, "r", Some(1), None),
        line(LineType::Header, "h", None, None),
        line(LineType::Added, "a", None, Some(1)),
        line(LineType::Header, "h", None, None),
    ];
    assert_eq!(pair_indices(&lines), vec![(Some(0), None), (None, Some(2))]);
    assert_eq!(paired_row_count(&lines), 2);
    assert_eq!(shown_line_count(&lines), 2);
    let pairs = pair_lines_with_index(&lines, 10);
    assert_eq!(pairs.len(), 2);
    assert_eq!(pairs[0].0.unwrap().index, 10);
    assert_eq!(pairs[0].0.unwrap().line.content, "r");
    assert!(pairs[0].1.is_none());
    assert_eq!(pairs[1].1.unwrap().index, 12);
    assert_eq!(pairs[1].1.unwrap().line.content, "a");
}

#[test]
fn an_added_run_before_a_removed_run_is_not_paired() {
    let lines = vec![
        line(LineType::Added, "a", None, Some(1)),
        line(LineType::Removed, "r", Some(1), None),
        line(LineType::Context, "c", Some(2), Some(2)),
        line(LineType::Removed, "r", Some(3), None),
        line(LineType::Added, "a", None, Some(3)),
        line(LineType::Added, "a", None, Some(4)),
    ];
    assert_eq!(
        pair_indices(&lines),
        vec![
            (None, Some(0)),
            (Some(1), None),
            (Some(2), Some(2)),
            (Some(3), Some(4)),
            (None, Some(5)),
        ]
    );
    assert_eq!(paired_row_count(&lines), 5);
    assert_eq!(shown_line_count(&lines), 6);
    assert_eq!(pair_indices(&[]), vec![]);
}

#[test]
fn unpaired_files_have_the_same_rows_in_both_hunk_layouts() {
    let mut file = sample();
    file.hunks[0].lines.remove(3);
    assert_eq!(
        file_line_count(&file, DiffMode::Unified),
        file_line_count(&file, DiffMode::SideBySide)
    );
    assert_eq!(file_rows(&file, DiffMode::Unified).len(), file_rows(&file, DiffMode::SideBySide).len());
}

#[test]
fn full_layout_has_the_rows_of_the_hunk_layout_where_lines_lie_outside_the_hunk() {
    // Three lines outside the one hunk, one row saved by pairing.
    let file = sample();
    assert!(
        file_line_count(&file, DiffMode::SideBySideFull) >= file_line_count(&file, DiffMode::SideBySide)
    );
    assert_eq!(
        file_line_count(&file, DiffMode::SideBySideFull) - file_line_count(&file, DiffMode::SideBySide),
        3 + 1 - 1
    );
    // A file without lines outside its hunk has fewer rows in the full layout.
    let small = FileDiff {
        path: "s".to_string(),
        old_path: None,
        old_content: texts(&["a"]),
        new_content: texts(&["a", "b"]),
        added: 1,
        removed: 0,
        hunks: vec![Hunk {
            old_start: 1,
            old_count: 1,
            new_start: 1,
            new_count: 2,
            header: String::new(),
            lines: vec![
                line(LineType::Context, "a", Some(1), Some(1)),
                line(LineType::Added, "b", None, Some(2)),
            ],
        }],
        collapsed: false,
        is_binary: false,
    };
    assert_eq!(file_line_count(&small, DiffMode::SideBySideFull), 3);
    assert_eq!(file_line_count(&small, DiffMode::SideBySide), 4);
}

fn three_files() -> Vec<FileDiff> {
    let mut b = sample();
    b.path = "b".to_string();
    b.collapsed = true;
    let mut c = sample();
    c.path = "c".to_string();
    vec![sample(), b, c]
}

#[test]
fn a_file_starts_where_the_files_before_it_end() {
    let files = three_files();
    let refs: Vec<&FileDiff> = files.iter().collect();
    for mode in [DiffMode::Unified, DiffMode::SideBySide, DiffMode::SideBySideFull] {
        let total = calculate_total_lines(&refs, mode);
        let count = file_line_count(&files[0], mode);
        assert_eq!(total, 2 * count + 1);
        assert_eq!(scroll_offset_of(&refs, mode, 0), 0);
        assert_eq!(scroll_offset_of(&refs, mode, 1), count);
        assert_eq!(scroll_offset_of(&refs, mode, 2), count + 1);
        assert_eq!(scroll_offset_of(&refs, mode, 3), total);
        assert_eq!(scroll_offset_of(&refs, mode, 9), total);
        for k in 0..3 {
            assert_eq!(file_at(&refs, mode, scroll_offset_of(&refs, mode, k)), Some(k));
        }
        assert_eq!(file_at(&refs, mode, count - 1), Some(0));
        assert_eq!(file_at(&refs, mode, total - 1), Some(2));
        assert_eq!(file_at(&refs, mode, total), None);
        assert_eq!(next_file(&refs, mode, 0), count);
        assert_eq!(next_file(&refs, mode, count), count + 1);
        assert_eq!(next_file(&refs, mode, count + 1), count + 1);
        assert_eq!(next_file(&refs, mode, total + 5), total + 5);
        assert_eq!(prev_file(&refs, mode, 0), 0);
        assert_eq!(prev_file(&refs, mode, 1), 0);
        assert_eq!(prev_file(&refs, mode, count + 1), count);
        assert_eq!(prev_file(&refs, mode, total + 5), count + 1);
    }
    assert_eq!(calculate_total_lines(&[], DiffMode::Unified), 0);
    assert_eq!(file_at(&[], DiffMode::Unified, 0), None);
    assert_eq!(next_file(&[], DiffMode::Unified, 3), 3);
    assert_eq!(prev_file(&[], DiffMode::Unified, 3), 0);
}

#[test]
fn max_scroll_leaves_a_screenful() {
    assert_eq!(clamp_max_scroll(100, 30), 70);
    assert_eq!(clamp_max_scroll(30, 30), 0);
    assert_eq!(clamp_max_scroll(10, 30), 0);
    assert_eq!(clamp_max_scroll(10, 0), 10);
}

#[test]
fn the_viewport_shows_the_rows_from_the_scroll_position_on() {
    let files = three_files();
    let refs: Vec<&FileDiff> = files.iter().collect();
    let all = visible_rows(&refs, DiffMode::SideBySide, 0, 100);
    assert_eq!(all.len(), 13);
    let first = file_rows(&files[0], DiffMode::SideBySide);
    for (i, row) in first.iter().enumerate() {
        assert_eq!(all[i], PlacedRow { file: 0, row: *row });
    }
    assert_eq!(all[6], PlacedRow { file: 1, row: Row::FileHeader });
    assert_eq!(all[7], PlacedRow { file: 2, row: Row::FileHeader });
    let window = visible_rows(&refs, DiffMode::SideBySide, 5, 4);
    assert_eq!(window, all[5..9].to_vec());
    assert_eq!(visible_rows(&refs, DiffMode::SideBySide, 12, 4), all[12..].to_vec());
    assert_eq!(visible_rows(&refs, DiffMode::SideBySide, 13, 4), vec![]);
    assert_eq!(visible_rows(&refs, DiffMode::SideBySide, 3, 0), vec![]);
    assert_eq!(visible_rows(&refs, DiffMode::SideBySide, usize::MAX, usize::MAX), vec![]);
    // Where pairing saved a row of the full layout, the row is blank.
    let full = visible_rows(&refs, DiffMode::SideBySideFull, 0, 100);
    assert_eq!(full.len(), 19);
    assert_eq!(full[7].row, Row::Pair { left: content_cell(6), right: content_cell(5) });
    assert_eq!(full[8], PlacedRow { file: 0, row: Row::Blank });
    assert_eq!(full[9], PlacedRow { file: 1, row: Row::FileHeader });
}

#[test]
fn cells_name_their_text_and_number() {
    let file = sample();
    let removed = Cell { line: Some((0, 1)), index: 3 };
    assert_eq!(
        describe_cell(&file, DiffMode::SideBySideFull, true, removed),
        Some(CellInfo {
            kind: LineType::Removed,
            lineno: Some(4),
            source: TextSource::Content { index: 3 },
        })
    );
    // The text at the cell's place differs: the hunk's own line is shown.
    let shifted = Cell { line: Some((0, 1)), index: 2 };
    assert_eq!(
        describe_cell(&file, DiffMode::SideBySideFull, true, shifted),
        Some(CellInfo {
            kind: LineType::Removed,
            lineno: Some(4),
            source: TextSource::HunkLine { hunk: 0, line: 1 },
        })
    );
    let exhausted = Cell { line: Some((0, 3)), index: 77 };
    assert_eq!(
        describe_cell(&file, DiffMode::SideBySideFull, true, exhausted),
        Some(CellInfo {
            kind: LineType::Added,
            lineno: Some(78),
            source: TextSource::HunkLine { hunk: 0, line: 3 },
        })
    );
    assert_eq!(
        describe_cell(&file, DiffMode::SideBySideFull, false, Cell { line: None, index: 5 }),
        Some(CellInfo {
            kind: LineType::Context,
            lineno: Some(6),
            source: TextSource::Content { index: 5 },
        })
    );
    assert_eq!(describe_cell(&file, DiffMode::SideBySideFull, false, Cell { line: None, index: 6 }), None);
    let added = Cell { line: Some((0, 3)), index: 3 };
    assert_eq!(
        describe_cell(&file, DiffMode::SideBySide, true, added),
        Some(CellInfo {
            kind: LineType::Added,
            lineno: None,
            source: TextSource::HunkLine { hunk: 0, line: 3 },
        })
    );
    assert_eq!(describe_cell(&file, DiffMode::SideBySide, false, added).unwrap().lineno, Some(4));
    assert_eq!(describe_cell(&file, DiffMode::Unified, false, removed).unwrap().lineno, Some(4));
    assert_eq!(
        describe_cell(&file, DiffMode::Unified, false, Cell { line: Some((0, 4)), index: 4 })
            .unwrap()
            .lineno,
        Some(5)
    );
    assert_eq!(describe_cell(&file, DiffMode::Unified, false, Cell { line: Some((0, 5)), index: 5 }), None);
    assert_eq!(describe_cell(&file, DiffMode::Unified, false, Cell { line: Some((1, 0)), index: 0 }), None);
    assert_eq!(describe_cell(&file, DiffMode::Unified, false, Cell { line: None, index: 0 }).unwrap().kind, LineType::Context);
}

#[test]
fn hunk_texts_and_stats() {
    let mut file = sample();
    file.hunks.push(Hunk {
        old_start: 9,
        old_count: 0,
        new_start: 9,
        new_count: 1,
        header: String::new(),
        lines: vec![line(LineType::Added, "tail", None, Some(9))],
    });
    let lines: Vec<&str> = hunk_texts(&file).into_iter().map(|s| s.as_str()).collect();
    assert_eq!(lines, vec!["c1", "r1", "r2", "a1", "c2", "tail"]);
    assert_eq!(compute_stats(&three_files()), (3, 6));
    assert_eq!(compute_stats(&[]), (0, 0));
}
