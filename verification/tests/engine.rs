//! End-to-end and synthesis tests for the diff engine.

use code_llm::diff::{DiffError, DiffGenerator, DirView};
use code_llm::hunks::{apply_hunks, parse_hunks};
use code_llm::synth::{apply_line_edit, collect_line_edit, synthesize_new_content};

fn lines(xs: &[&str]) -> Vec<String> {
    xs.iter().map(|s| s.to_string()).collect()
}

fn dir_with(entries: &[(&str, Option<&str>)]) -> DirView {
    let mut d = DirView::new();
    for (p, c) in entries {
        d.push_entry(p.to_string(), c.map(|s| s.to_string()));
    }
    d
}

#[test]
fn hunk_count_change_matches_header() {
    // a hunk declaring `-2,2 +2,3` replaces two lines with three:
    // the file grows by exactly one line
    let block = lines(&["@@ -2,2 +2,3 @@", " b", "-c", "+x", "+y"]);
    let hunks = parse_hunks(&block);
    assert_eq!(hunks.len(), 1);
    assert_eq!(hunks[0].old_start, 2);
    assert_eq!(hunks[0].old_count, 2);
    assert_eq!(hunks[0].new_lines, lines(&["b", "x", "y"]));
    let old = lines(&["a", "b", "c", "d", "e"]);
    let new = apply_hunks(&old, &hunks);
    assert_eq!(new.len(), old.len() + 1);
    assert_eq!(new, lines(&["a", "b", "x", "y", "d", "e"]));
}

#[test]
fn two_nonoverlapping_hunks_change_count_by_their_sum() {
    let block = lines(&[
        "@@ -1,1 +1,2 @@",
        " a",
        "+after-a",
        "@@ -4,2 +5,1 @@",
        "-d",
        "-e",
        "+de",
    ]);
    let hunks = parse_hunks(&block);
    assert_eq!(hunks.len(), 2);
    let old = lines(&["a", "b", "c", "d", "e"]);
    let new = apply_hunks(&old, &hunks);
    // (2 - 1) + (1 - 2) = 0
    assert_eq!(new.len(), old.len());
    assert_eq!(new, lines(&["a", "after-a", "b", "c", "de"]));
}

#[test]
fn new_file_block_synthesizes_each_line_newline_terminated() {
    let block = lines(&["+ a", "+ b", "+ c"]);
    assert_eq!(synthesize_new_content(&block), "a\nb\nc\n");
}

#[test]
fn new_file_synthesis_skips_headers_and_strips_one_space() {
    let block = lines(&["--- /dev/null", "+++ notes.txt", "+  indented", "+bare"]);
    // one space stripped at most: "+  indented" keeps one of its spaces
    assert_eq!(synthesize_new_content(&block), " indented\nbare\n");
}

#[test]
fn line_list_fallback_replaces_first_occurrence() {
    let old = lines(&["a", "b", "c"]);
    let removed = lines(&["b"]);
    let added = lines(&["x"]);
    let (out, found) = apply_line_edit(&old, &removed, &added);
    assert!(found);
    assert_eq!(out, lines(&["a", "x", "c"]));
}

#[test]
fn line_list_fallback_without_match_changes_nothing() {
    let old = lines(&["a", "b", "c"]);
    let removed = lines(&["z"]);
    let added = lines(&["x"]);
    let (out, found) = apply_line_edit(&old, &removed, &added);
    assert!(!found);
    assert_eq!(out, lines(&["a", "b", "c"]));
}

#[test]
fn collect_line_edit_keeps_removed_verbatim_and_strips_added() {
    let block = lines(&["f.txt", "- old line", "+ new line", "--- header", "+++ header"]);
    let (removed, added) = collect_line_edit(&block);
    // removed text is verbatim after the '-'; added loses one space
    assert_eq!(removed, lines(&[" old line"]));
    assert_eq!(added, lines(&["new line"]));
}

#[test]
fn fallback_applies_through_parse_diff() {
    let gen = DiffGenerator::new();
    let dir = dir_with(&[("f.txt", Some("a\nb\nc\n"))]);
    let fd = gen.parse_diff("f.txt\n-b\n+x", &dir).unwrap();
    assert!(!fd.is_new_file);
    assert_eq!(fd.file_path, "f.txt");
    assert_eq!(fd.old_content, "a\nb\nc\n");
    assert_eq!(fd.new_content, "a\nx\nc\n");
}

#[test]
fn fallback_no_match_keeps_old_content_through_parse_diff() {
    let gen = DiffGenerator::new();
    let dir = dir_with(&[("f.txt", Some("a\nb\nc\n"))]);
    let fd = gen.parse_diff("f.txt\n-z\n+x", &dir).unwrap();
    assert_eq!(fd.new_content, "a\nb\nc\n");
}

#[test]
fn tagged_fence_for_missing_file_yields_new_file_diff() {
    let gen = DiffGenerator::new();
    let dir = DirView::new();
    let text = "Here is the file you asked for:\n```diff\nnotes.txt\n+ hello\n+ world\n```\nLet me know.";
    let diffs = gen.extract_diffs(text, &dir);
    assert_eq!(diffs.len(), 1);
    assert!(diffs[0].is_new_file);
    assert_eq!(diffs[0].file_path, "notes.txt");
    assert_eq!(diffs[0].old_content, "");
    assert_eq!(diffs[0].new_content, "hello\nworld\n");
}

#[test]
fn unified_hunk_inserts_one_line_into_five_line_file() {
    let gen = DiffGenerator::new();
    let dir = dir_with(&[("f.txt", Some("l1\nl2\nl3\nl4\nl5\n"))]);
    let text = "```diff\n--- f.txt\n+++ f.txt\n@@ -2,1 +2,2 @@\n l2\n+extra\n```";
    let diffs = gen.extract_diffs(text, &dir);
    assert_eq!(diffs.len(), 1);
    let fd = &diffs[0];
    assert!(!fd.is_new_file);
    let new_lines: Vec<&str> = fd.new_content.lines().collect();
    assert_eq!(new_lines.len(), 6);
    assert_eq!(new_lines[0], "l1");
    assert_eq!(new_lines[3], "l3");
    assert_eq!(new_lines[4], "l4");
    assert_eq!(new_lines[5], "l5");
    assert_eq!(fd.new_content, "l1\nl2\nextra\nl3\nl4\nl5\n");
}

#[test]
fn empty_block_is_invalid_format() {
    let gen = DiffGenerator::new();
    let dir = DirView::new();
    match gen.parse_diff("", &dir) {
        Err(DiffError::InvalidFormat(_)) => {}
        _ => panic!("an empty block must be rejected as InvalidFormat"),
    }
}

#[test]
fn block_without_derivable_path_is_invalid_format() {
    let gen = DiffGenerator::new();
    let dir = DirView::new();
    match gen.parse_diff("just words with spaces\nmore words here", &dir) {
        Err(DiffError::InvalidFormat(_)) => {}
        _ => panic!("a block with no path must be rejected as InvalidFormat"),
    }
}

#[test]
fn unreadable_existing_file_is_file_not_found() {
    let gen = DiffGenerator::new();
    let dir = dir_with(&[("f.txt", None)]);
    match gen.parse_diff("f.txt\n-b\n+x", &dir) {
        Err(DiffError::FileNotFound(m)) => assert_eq!(m, "f.txt"),
        _ => panic!("an unreadable existing file must give FileNotFound"),
    }
}

#[test]
fn error_message_returns_the_payload() {
    let e = DiffError::InvalidFormat("why".to_string());
    assert_eq!(e.message(), "why");
    let e = DiffError::FileNotFound("f.txt".to_string());
    assert_eq!(e.message(), "f.txt");
}

#[test]
fn basename_fallback_finds_file_in_working_directory() {
    let gen = DiffGenerator::new();
    // the model names a project-relative path, but only the bare name
    // exists in the working directory
    let dir = dir_with(&[("f.txt", Some("a\nb\n"))]);
    let fd = gen.parse_diff("src/f.txt\n-a\n+z", &dir).unwrap();
    assert!(!fd.is_new_file);
    assert_eq!(fd.new_content, "z\nb\n");
}

#[test]
fn devnull_sentinel_forces_new_file_even_when_target_exists() {
    let gen = DiffGenerator::new();
    let dir = dir_with(&[("new.txt", Some("old stuff\n"))]);
    let fd = gen
        .parse_diff("--- /dev/null\n+++ new.txt\n@@ -0,0 +1,2 @@\n+a\n+b", &dir)
        .unwrap();
    assert!(fd.is_new_file);
    assert_eq!(fd.old_content, "");
    assert_eq!(fd.new_content, "a\nb\n");
}

#[test]
fn hunk_past_end_of_file_is_clamped() {
    let block = lines(&["@@ -4,5 +4,1 @@", "-d", "+z"]);
    let hunks = parse_hunks(&block);
    let old = lines(&["a", "b", "c", "d", "e"]);
    let new = apply_hunks(&old, &hunks);
    // the declared range reaches past the end: it is clamped, replacing
    // everything from line 4 on
    assert_eq!(new, lines(&["a", "b", "c", "z"]));
}

#[test]
fn trailing_newline_convention_follows_old_content() {
    let gen = DiffGenerator::new();
    let dir = dir_with(&[("f.txt", Some("a\nb"))]);
    let fd = gen.parse_diff("f.txt\n-a\n+x", &dir).unwrap();
    // the old content does not end with a newline, so neither does the new
    assert_eq!(fd.new_content, "x\nb");
}

#[test]
fn blank_replacement_tail_cannot_smuggle_a_newline_in() {
    let gen = DiffGenerator::new();
    // the block replaces the last line with an empty one; the old content
    // has no final newline, so the empty tail is dropped rather than
    // letting the join end the file with one
    let dir = dir_with(&[("f.txt", Some("a\nb"))]);
    let fd = gen.parse_diff("f.txt\n-b\n+", &dir).unwrap();
    assert_eq!(fd.new_content, "a");
    // with a final newline on the old side, the empty line survives
    let dir = dir_with(&[("f.txt", Some("a\nb\n"))]);
    let fd = gen.parse_diff("f.txt\n-b\n+", &dir).unwrap();
    assert_eq!(fd.new_content, "a\n\n");
}

#[test]
fn three_blocks_with_one_bad_still_yield_two_diffs() {
    let gen = DiffGenerator::new();
    let dir = dir_with(&[("f.txt", Some("a\nb\n"))]);
    let text = "```diff\nf.txt\n-a\n+x\n```\nand then\n```diff\n+only plus lines\n+but no path at all with spaces everywhere\n```\nand finally\n```diff\ng.txt\n+ fresh\n```";
    let diffs = gen.extract_diffs(text, &dir);
    assert_eq!(diffs.len(), 2);
    assert_eq!(diffs[0].file_path, "f.txt");
    assert_eq!(diffs[1].file_path, "g.txt");
    assert!(diffs[1].is_new_file);
}
