use gv::diff::{FileDiff, Hunk};
use gv::labels::{full_cache_key, smart_truncate, truncate, truncate_front};
use gv::layout::{
    blank_text, centered, decimal, gap, hunk_header_text, line_number_text, visual_depth,
};
use gv::patch::{parse_patch, DiffBuilder, HunkInfo, PatchLine};
use gv::text::{is_whitespace, split_lines, trim, trim_line_end};
use gv::width::{expand_tabs, expand_tabs_tokens, expand_tabs_with, fitting_count, truncate_str};

#[test]
fn lines_split_as_the_standard_library_splits_them() {
    let samples = [
        "",
        "a",
        "a\n",
        "a\r\n",
        "a\n\nb",
        "a\rb\n",
        "\n",
        "a\r",
        "\r\n\r\n",
        "one\ntwo\r\nthree",
        "\r",
        "x\r\r\ny",
        "héllo\nwörld\n",
    ];
    for text in samples {
        let expected: Vec<String> = text.lines().map(|l| l.to_string()).collect();
        assert_eq!(split_lines(text), expected, "{:?}", text);
    }
    assert_eq!(split_lines("a\r\nb\n"), vec!["a", "b"]);
}

#[test]
fn trimming_is_that_of_the_standard_library() {
    for n in 0..0x3100u32 {
        if let Some(c) = char::from_u32(n) {
            assert_eq!(is_whitespace(c), c.is_whitespace(), "{:x}", n);
        }
    }
    let samples = ["", "  a b \n", "\u{3000}x\u{a0}", "   ", "@@ -1,2 +1,3 @@ fn main()\n", "x", "\t\r\n"];
    for text in samples {
        assert_eq!(trim(text), text.trim(), "{:?}", text);
    }
    assert_eq!(trim("  a b \n"), "a b");
    assert_eq!(trim_line_end("abc\r\n"), "abc");
    assert_eq!(trim_line_end("abc\n\n\r"), "abc");
    assert_eq!(trim_line_end("a\nb"), "a\nb");
    assert_eq!(trim_line_end("abc "), "abc ");
    assert_eq!(trim_line_end("\n"), "");
}

#[test]
fn texts_are_cut_to_a_width() {
    assert_eq!(truncate_str("hello", 3), "hel");
    assert_eq!(truncate_str("hello", 5), "hello");
    assert_eq!(truncate_str("hello", 0), "");
    assert_eq!(truncate_str("", 4), "");
    // Wide characters take two columns each.
    assert_eq!(truncate_str("日本語", 3), "日");
    assert_eq!(truncate_str("日本語", 4), "日本");
    assert_eq!(truncate_str("日本語", 6), "日本語");
    assert_eq!(truncate_str("a日b", 2), "a");
    assert_eq!(fitting_count(&[1, 1, 2, 1], 3), 2);
    assert_eq!(fitting_count(&[0, 0, 5], 4), 2);
    assert_eq!(fitting_count(&[1, 1], 9), 2);
    assert_eq!(fitting_count(&[], 9), 0);
    assert_eq!(fitting_count(&[usize::MAX, 1], usize::MAX), 1);
}

#[test]
fn tabs_lead_to_the_next_tab_stop() {
    assert_eq!(expand_tabs("a\tb", 4), "a   b");
    assert_eq!(expand_tabs("\t", 4), "    ");
    assert_eq!(expand_tabs("ab\tc\td", 4), "ab  c   d");
    assert_eq!(expand_tabs("abcd\tx", 4), "abcd    x");
    assert_eq!(expand_tabs("日\tx", 4), "日  x");
    assert_eq!(expand_tabs("no tabs", 4), "no tabs");
    assert_eq!(expand_tabs("a\tb", 1), "a b");
    assert_eq!(expand_tabs("", 8), "");
    let (text, col) = expand_tabs_with(&['a', '\t', 'b'], &[1, 0, 1], 4, 2);
    assert_eq!(text, "a b");
    assert_eq!(col, 1);
    let (text, col) = expand_tabs_with(&['x'], &[usize::MAX], 5, 3);
    assert_eq!(text, "x");
    assert_eq!(col, (3 + (usize::MAX % 5)) % 5);
}

#[test]
fn tokens_share_the_columns_of_their_line() {
    let tokens = vec!["a\t".to_string(), String::new(), "\tb".to_string(), "c\t".to_string()];
    assert_eq!(
        expand_tabs_tokens(&tokens, 4),
        vec![(0, "a   ".to_string()), (2, "    b".to_string()), (3, "c  ".to_string())]
    );
    assert_eq!(expand_tabs_tokens(&[], 4), vec![]);
}

#[test]
fn labels_are_cut_to_a_length() {
    assert_eq!(truncate("hello world", 8), "hello...");
    assert_eq!(truncate("hello", 5), "hello");
    assert_eq!(truncate("hello", 3), "hel");
    assert_eq!(truncate("hello", 4), "h...");
    assert_eq!(truncate("hello", 0), "");
    assert_eq!(truncate("héllo wörld", 20), "héllo wörld");
    assert_eq!(truncate("ééé", 5), "é...");
    assert_eq!(smart_truncate("very_long_filename.tsx", 12), "very_lo….tsx");
    assert_eq!(smart_truncate("abcdef", 4), "abcd");
    assert_eq!(smart_truncate("abcdef", 5), "ab…ef");
    assert_eq!(smart_truncate("ab", 5), "ab");
    assert_eq!(smart_truncate("abcdef", 6), "abcdef");
    assert_eq!(smart_truncate("abcdef", 0), "");
    // Three characters of six bytes: too long in bytes, short in characters.
    assert_eq!(smart_truncate("ééé", 5), "éé…éé");
    assert_eq!(smart_truncate("ééé", 2), "éé");
    assert_eq!(truncate_front("src/very/long/path.rs", 10), "...path.rs");
    assert_eq!(truncate_front("src/very/long/path.rs", 21), "src/very/long/path.rs");
    assert_eq!(truncate_front("src/very/long/path.rs", 3), "src/very/long/path.rs");
    assert_eq!(truncate_front("src/a → src/bé", 6), "...bé");
    assert_eq!(truncate_front("", 0), "");
    assert_eq!(full_cache_key("src/a.rs", true), "src/a.rs::full::old");
    assert_eq!(full_cache_key("src/a.rs", false), "src/a.rs::full::new");
}

#[test]
fn numbers_and_headers() {
    assert_eq!(decimal(0), "0");
    assert_eq!(decimal(7), "7");
    assert_eq!(decimal(10), "10");
    assert_eq!(decimal(1234567890), "1234567890");
    assert_eq!(decimal(usize::MAX), usize::MAX.to_string());
    assert_eq!(blank_text(3), "   ");
    assert_eq!(blank_text(0), "");
    assert_eq!(line_number_text(Some(42)), "   42 ");
    assert_eq!(line_number_text(Some(12345)), "12345 ");
    assert_eq!(line_number_text(Some(123456)), "123456 ");
    assert_eq!(line_number_text(Some(0)), "      ");
    assert_eq!(line_number_text(None), "      ");
    let mut hunk = Hunk {
        old_start: 3,
        old_count: 14,
        new_start: 5,
        new_count: 0,
        header: String::new(),
        lines: vec![],
    };
    assert_eq!(hunk_header_text(&hunk), "@@ -3,14 +5,0 @@");
    hunk.header = "@@ -3,14 +5,0 @@ fn main()".to_string();
    assert_eq!(hunk_header_text(&hunk), "@@ -3,14 +5,0 @@ fn main()");
}

#[test]
fn measures_of_the_screen() {
    assert_eq!(gap(10, 5, 40), Some(25));
    assert_eq!(gap(10, 5, 16), Some(1));
    assert_eq!(gap(10, 5, 15), None);
    assert_eq!(gap(10, 5, 3), None);
    assert_eq!(gap(usize::MAX, usize::MAX, usize::MAX), None);
    assert_eq!(centered((0, 0, 100, 40), 60, 10), (20, 15, 60, 10));
    assert_eq!(centered((5, 5, 10, 10), 60, 24), (5, 5, 10, 10));
    assert_eq!(centered((2, 3, 11, 8), 4, 3), (5, 5, 4, 3));
    assert_eq!(centered((u16::MAX, u16::MAX, 10, 10), 2, 2), (u16::MAX, u16::MAX, 2, 2));
    assert_eq!(visual_depth(0), (0, None));
    assert_eq!(visual_depth(6), (6, None));
    assert_eq!(visual_depth(9), (6, Some(3)));
}

fn patch_line(path: &str, hunk: Option<(u32, u32, &str)>, origin: char, content: &str) -> PatchLine {
    PatchLine {
        new_path: Some(path.to_string()),
        old_path: Some(path.to_string()),
        is_binary: false,
        hunk: hunk.map(|(old_start, new_start, header)| HunkInfo {
            old_start,
            old_count: 2,
            new_start,
            new_count: 2,
            header: header.to_string(),
        }),
        origin,
        content: content.to_string(),
        old_lineno: if origin == '+' { None } else { Some(1) },
        new_lineno: if origin == '-' { None } else { Some(1) },
    }
}

#[test]
fn a_patch_is_grouped_into_files_and_hunks() {
    let first = Some((1, 1, "@@ -1,2 +1,2 @@\n"));
    let second = Some((9, 9, "@@ -9,2 +9,2 @@ fn f()\n"));
    let mut renamed = patch_line("b.rs", first, '+', "moved\n");
    renamed.old_path = Some("old/b.rs".to_string());
    let mut binary = patch_line("c.bin", None, 'B', "Binary files differ\n");
    binary.is_binary = true;
    let lines = vec![
        patch_line("a.rs", None, 'F', "diff --git a/a.rs b/a.rs\n"),
        patch_line("a.rs", first, 'H', "@@ -1,2 +1,2 @@\n"),
        patch_line("a.rs", first, ' ', "same\n"),
        patch_line("a.rs", first, '-', "old\r\n"),
        patch_line("a.rs", first, '+', "new\n"),
        patch_line("a.rs", second, '+', "more"),
        renamed,
        binary,
    ];
    let files: Vec<FileDiff> = parse_patch(&lines);
    assert_eq!(files.len(), 3);
    let a = &files[0];
    assert_eq!(a.path, "a.rs");
    assert_eq!(a.old_path, None);
    assert_eq!((a.added, a.removed), (2, 1));
    assert!(!a.is_binary && !a.collapsed);
    assert!(a.old_content.is_none() && a.new_content.is_none());
    assert_eq!(a.hunks.len(), 2);
    assert_eq!(a.hunks[0].header, "@@ -1,2 +1,2 @@");
    assert_eq!((a.hunks[0].old_start, a.hunks[0].old_count), (1, 2));
    let texts: Vec<&str> = a.hunks[0].lines.iter().map(|l| l.content.as_str()).collect();
    assert_eq!(texts, vec!["same", "old", "new"]);
    assert_eq!(a.hunks[0].lines[1].old_lineno, Some(1));
    assert_eq!(a.hunks[0].lines[1].new_lineno, None);
    assert_eq!(a.hunks[1].header, "@@ -9,2 +9,2 @@ fn f()");
    assert_eq!(a.hunks[1].lines.len(), 1);
    assert_eq!(a.hunks[1].lines[0].content, "more");
    let b = &files[1];
    assert_eq!(b.path, "b.rs");
    assert_eq!(b.old_path.as_deref(), Some("old/b.rs"));
    assert_eq!((b.added, b.removed), (1, 0));
    assert_eq!(b.hunks.len(), 1);
    let c = &files[2];
    assert!(c.is_binary);
    assert!(c.hunks.is_empty());
    assert_eq!(parse_patch(&[]).len(), 0);
    // The same through the builder, line by line.
    let mut builder = DiffBuilder::new();
    for line in &lines {
        builder.push(line);
    }
    assert_eq!(builder.finish().len(), 3);
}

#[test]
fn a_line_without_a_path_joins_the_file_under_construction() {
    let mut stray = patch_line("a.rs", None, '+', "x\n");
    stray.new_path = None;
    let files = parse_patch(&[patch_line("a.rs", None, '+', "y\n"), stray.clone()]);
    assert_eq!(files.len(), 1);
    assert_eq!(files[0].added, 2);
    assert!(files[0].hunks.is_empty());
    assert_eq!(parse_patch(&[stray]).len(), 0);
}
