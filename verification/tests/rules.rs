//! Tests for the classifier rules, the block extractor and the path
//! resolver.

use code_llm::classify::{
    classify_lines, rule_code_block, rule_diff_tagged, rule_line_counts, rule_pathlike,
    rule_unified,
};
use code_llm::extract::extract_candidate_blocks;
use code_llm::hunks::parse_hunk_header;
use code_llm::path::sanitize_path;
use code_llm::DiffGenerator;

fn lines(xs: &[&str]) -> Vec<String> {
    xs.iter().map(|s| s.to_string()).collect()
}

#[test]
fn plain_prose_is_not_an_edit() {
    let gen = DiffGenerator::new();
    let text = "here is my explanation\nit talks about the change\nnothing more to say\njust plain words\nand a final thought";
    assert!(!gen.is_likely_diff(text));
}

#[test]
fn diff_tagged_fence_with_edit_line_is_accepted() {
    assert!(rule_diff_tagged(&lines(&["+x"]), true));
    // the same lines without the tag do not satisfy this rule
    assert!(!rule_diff_tagged(&lines(&["+x"]), false));
    // a tagged block whose only +/- lines are file headers does not
    assert!(!rule_diff_tagged(&lines(&["--- a", "+++ b"]), true));
}

#[test]
fn unified_structure_is_accepted() {
    assert!(rule_unified(&lines(&["--- src/a.rs", "some text"])));
    assert!(rule_unified(&lines(&["+++ src/a.rs"])));
    assert!(rule_unified(&lines(&["@@ -1,2 +3,4 @@"])));
    assert!(!rule_unified(&lines(&["---x", "@@ -broken", "plain"])));
}

#[test]
fn pathlike_first_line_with_one_edit_line_is_accepted() {
    assert!(rule_pathlike(&lines(&["src/main.rs", "+new line"])));
    // a path-like first line alone is not enough
    assert!(!rule_pathlike(&lines(&["src/main.rs", "nothing changes"])));
}

#[test]
fn line_counts_alone_can_accept() {
    assert!(rule_line_counts(&lines(&["+a", "+b"])));
    assert!(rule_line_counts(&lines(&["-a", "-b"])));
    assert!(rule_line_counts(&lines(&["+a", "-b"])));
    assert!(!rule_line_counts(&lines(&["+a"])));
    assert!(!rule_line_counts(&lines(&["-a"])));
}

#[test]
fn pasted_code_heuristic_accepts_dense_code() {
    let code = lines(&["fn main() {", "    let x = 1;", "    report(x);", "}"]);
    assert!(rule_code_block(&code));
    // too short
    assert!(!rule_code_block(&lines(&["{", "}", ";"])));
    // too sparse
    let sparse = lines(&["one plain line", "another", "a third", "a fourth", "x = 1"]);
    assert!(!rule_code_block(&sparse));
}

#[test]
fn classifier_combines_rules_first_match_wins() {
    assert!(classify_lines(&lines(&["+a", "+b"]), false));
    assert!(!classify_lines(&lines(&["nothing here"]), false));
}

#[test]
fn hunk_header_parses_starts_and_counts() {
    assert_eq!(parse_hunk_header("@@ -2,3 +4,5 @@"), Some((2, 3, 5)));
    // a count omitted on either side defaults to 1
    assert_eq!(parse_hunk_header("@@ -7 +9 @@"), Some((7, 1, 1)));
    assert_eq!(parse_hunk_header("@@ -10,0 +11,2 @@ trailing note"), Some((10, 0, 2)));
    assert_eq!(parse_hunk_header("@@ -a +b @@"), None);
    assert_eq!(parse_hunk_header("@@-1 +1 @@"), None);
    assert_eq!(parse_hunk_header("@@ -1, +1 @@"), None);
    assert_eq!(parse_hunk_header("not a header"), None);
}

#[test]
fn fences_become_candidate_blocks_in_order() {
    let text = "first\n```rust\nalpha\n```\nbetween\n```diff\n+x\n```\nend";
    let blocks = extract_candidate_blocks(text);
    assert_eq!(blocks.len(), 2);
    assert_eq!(blocks[0].lines, lines(&["alpha"]));
    assert!(!blocks[0].diff_tagged);
    assert_eq!(blocks[1].lines, lines(&["+x"]));
    assert!(blocks[1].diff_tagged);
}

#[test]
fn unclosed_fence_yields_no_fenced_block() {
    // the unmatched fence produces no fenced block; its +/- lines are
    // still picked up by the fallback run strategy, untagged
    let text = "words\n```diff\n+x\n+y";
    let blocks = extract_candidate_blocks(text);
    assert_eq!(blocks.len(), 1);
    assert!(!blocks[0].diff_tagged);
    assert_eq!(blocks[0].lines, lines(&["+x", "+y"]));
}

#[test]
fn empty_response_yields_no_blocks() {
    assert_eq!(extract_candidate_blocks("").len(), 0);
    let gen = DiffGenerator::new();
    assert_eq!(gen.extract_raw_diff_blocks("").len(), 0);
}

#[test]
fn unfenced_runs_become_blocks_with_filename_hint() {
    let text = "I would edit notes.txt\nnotes.txt\n+alpha\n-beta\n\n+gamma\nthat is all";
    let blocks = extract_candidate_blocks(text);
    assert_eq!(blocks.len(), 1);
    assert_eq!(
        blocks[0].lines,
        lines(&["notes.txt", "+alpha", "-beta", "", "+gamma"])
    );
    assert!(!blocks[0].diff_tagged);
}

#[test]
fn raw_unified_text_without_fence_is_likely_a_diff() {
    let gen = DiffGenerator::new();
    assert!(gen.is_likely_diff("--- f.txt\n+++ f.txt\n@@ -1,1 +1,1 @@\n-a\n+b"));
    assert!(gen.is_likely_diff("+one\n+two"));
}

#[test]
fn unfenced_run_text_survives_extraction_and_classification() {
    let gen = DiffGenerator::new();
    let text = "I would change notes.txt like this\nnotes.txt\n+alpha\n-beta";
    let blocks = gen.extract_raw_diff_blocks(text);
    assert_eq!(blocks, vec!["notes.txt\n+alpha\n-beta\n".to_string()]);
}

#[test]
fn extract_raw_diff_blocks_keeps_only_edits() {
    let gen = DiffGenerator::new();
    let text = "```\njust a plain sample\n```\n```diff\n+x\n-y\n```";
    let blocks = gen.extract_raw_diff_blocks(text);
    assert_eq!(blocks, vec!["+x\n-y\n".to_string()]);
}

#[test]
fn traversal_paths_reduce_to_the_bare_file_name() {
    assert_eq!(sanitize_path("../secret.txt"), Some("secret.txt".to_string()));
    assert_eq!(sanitize_path("/etc/passwd"), Some("passwd".to_string()));
    assert_eq!(sanitize_path("\\win\\sys.ini"), Some("sys.ini".to_string()));
    assert_eq!(sanitize_path("a/../b.txt"), Some("b.txt".to_string()));
    assert_eq!(sanitize_path("x/../../y/z.c"), Some("z.c".to_string()));
    for p in ["../secret.txt", "/etc/passwd", "\\win\\sys.ini", "a/../b.txt"] {
        let r = sanitize_path(p).unwrap();
        assert!(!r.starts_with('/') && !r.starts_with('\\'));
        assert!(!r.contains("/") && !r.contains("\\"));
        assert_ne!(r, "..");
    }
}

#[test]
fn harmless_relative_paths_stay_unchanged() {
    assert_eq!(sanitize_path("src/main.rs"), Some("src/main.rs".to_string()));
    assert_eq!(sanitize_path("notes.txt"), Some("notes.txt".to_string()));
    // a dotted name that is not a parent component is kept
    assert_eq!(sanitize_path("a..b/c.txt"), Some("a..b/c.txt".to_string()));
}

#[test]
fn unusable_paths_are_rejected() {
    assert_eq!(sanitize_path(""), None);
    assert_eq!(sanitize_path(".."), None);
    assert_eq!(sanitize_path("a/.."), None);
    assert_eq!(sanitize_path("/"), None);
}

#[test]
fn quoted_or_cr_terminated_header_paths_are_cleaned() {
    let gen = DiffGenerator::new();
    let dir = code_llm::DirView::new();
    let fd = gen.parse_diff("+++ \"src/lib.rs\"\n+new", &dir).unwrap();
    assert_eq!(fd.file_path, "src/lib.rs");
    // lines of a CRLF response keep their carriage return; it is trimmed
    let fd = gen.parse_diff("--- a/x.txt\r\n+++ b/x.txt\r\n+new", &dir).unwrap();
    assert_eq!(fd.file_path, "x.txt");
    let fd = gen.parse_diff("+++  'notes.txt' \n+new", &dir).unwrap();
    assert_eq!(fd.file_path, "notes.txt");
}

#[test]
fn header_path_is_preferred_and_vcs_prefixes_stripped() {
    let gen = DiffGenerator::new();
    let dir = code_llm::DirView::new();
    let fd = gen
        .parse_diff("--- a/src/lib.rs\n+++ b/src/lib.rs\n+new", &dir)
        .unwrap();
    assert_eq!(fd.file_path, "src/lib.rs");
    let fd = gen.parse_diff("+++ ./notes.txt\n+new", &dir).unwrap();
    assert_eq!(fd.file_path, "notes.txt");
}
