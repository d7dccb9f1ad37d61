use gv::diff::{DiffLine, FileDiff, Hunk, LineType};
use gv::index::{
    calculate_total_lines, clamp_max_scroll, file_at, file_line_count, next_file, prev_file,
    scroll_offset_of, DiffMode,
};
use gv::pairing::{pair_indices, pair_lines, pair_lines_with_index, paired_row_count};
use gv::rows::{file_rows, visible_rows, Cell, PlacedRow, Row};

fn line(kind: LineType, text: &str, old: Option<u32>, new: Option<u32>) -> DiffLine {
    DiffLine { line_type: kind, content: text.to_string(), old_lineno: old, new_lineno: new }
}

fn hunk(old_start: u32, new_start: u32, lines: Vec<DiffLine>) -> Hunk {
    let old_count = lines
        .iter()
        .filter(|l| l.line_type == LineType::Context || l.line_type == LineType::Removed)
        .count() as u32;
    let new_count = lines
        .iter()
        .filter(|l| l.line_type == LineType::Context || l.line_type == LineType::Added)
        .count() as u32;
    Hunk { old_start, old_count, new_start, new_count, header: String::new(), lines }
}

fn file(path: &str, hunks: Vec<Hunk>) -> FileDiff {
    let added = hunks
        .iter()
        .map(|h| h.lines.iter().filter(|l| l.line_type == LineType::Added).count())
        .sum();
    let removed = hunks
        .iter()
        .map(|h| h.lines.iter().filter(|l| l.line_type == LineType::Removed).count())
        .sum();
    FileDiff {
        path: path.to_string(),
        old_path: None,
        old_content: None,
        new_content: None,
        added,
        removed,
        hunks,
        collapsed: false,
        is_binary: false,
    }
}

#[test]
fn test_line_type() {
    assert_eq!(LineType::Added, LineType::Added);
    assert_ne!(LineType::Added, LineType::Removed);
}

#[test]
fn removed_run_of_three_pairs_with_added_run_of_one() {
    let lines = vec![
        line(LineType::Removed, "r0", Some(1), None),
        line(LineType::Removed, "r1", Some(2), None),
        line(LineType::Removed, "r2", Some(3), None),
        line(LineType::Added, "a0", None, Some(1)),
    ];
    assert_eq!(
        pair_indices(&lines),
        vec![(Some(0), Some(3)), (Some(1), None), (Some(2), None)]
    );
    let pairs = pair_lines(&lines);
    assert_eq!(pairs.len(), 3);
    assert_eq!(pairs[0].0.unwrap().content, "r0");
    assert_eq!(pairs[0].1.unwrap().content, "a0");
    assert_eq!(pairs[1].0.unwrap().content, "r1");
    assert!(pairs[1].1.is_none());
    assert_eq!(pairs[2].0.unwrap().content, "r2");
    assert!(pairs[2].1.is_none());
    assert_eq!(paired_row_count(&lines), 3);
}

#[test]
fn three_files_have_seven_unified_rows() {
    let a = file(
        "a.txt",
        vec![hunk(
            1,
            1,
            vec![
                line(LineType::Removed, "x", Some(1), None),
                line(LineType::Added, "y", None, Some(1)),
                line(LineType::Added, "z", None, Some(2)),
            ],
        )],
    );
    let mut b = file("dir/b.txt", vec![]);
    b.is_binary = true;
    let mut c = file(
        "dir/c.txt",
        vec![hunk(
            1,
            1,
            vec![
                line(LineType::Removed, "1", Some(1), None),
                line(LineType::Removed, "2", Some(2), None),
                line(LineType::Removed, "3", Some(3), None),
            ],
        )],
    );
    c.collapsed = true;
    assert_eq!((a.added, a.removed), (2, 1));
    assert_eq!((c.added, c.removed), (0, 3));
    let files = vec![&a, &b, &c];
    assert_eq!(file_line_count(&a, DiffMode::Unified), 5);
    assert_eq!(file_line_count(&b, DiffMode::Unified), 1);
    assert_eq!(file_line_count(&c, DiffMode::Unified), 1);
    assert_eq!(calculate_total_lines(&files, DiffMode::Unified), 7);
    assert_eq!(calculate_total_lines(&files, DiffMode::SideBySide), 6);
}
