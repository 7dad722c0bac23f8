//! Tests for the preview renderer, the configuration and the text and
//! binary helpers.

use code_llm::binary::{ascii_lowercase, has_null_byte, is_binary_name};
use code_llm::render::{render_new_file_preview, render_preview, DiffRow, RenderKind};
use code_llm::text::{join_text, parse_dec_saturating, split_lines, usize_to_string};
use code_llm::{default_api_url, default_system_prompt, get_config_path, get_history_file_path};
use code_llm::{Config, DiffAction, DiffGenerator, DirView, FileDiff};

fn lines(xs: &[&str]) -> Vec<String> {
    xs.iter().map(|s| s.to_string()).collect()
}

fn texts_of(rows: &[code_llm::render::RenderLine]) -> Vec<String> {
    rows.iter().map(|r| r.text.clone()).collect()
}

#[test]
fn preview_of_hand_built_rows_is_exact() {
    let rows = vec![
        DiffRow::Equal("a".to_string()),
        DiffRow::Delete("b".to_string()),
        DiffRow::Insert("x".to_string()),
        DiffRow::Equal("c".to_string()),
    ];
    let out = render_preview("f.txt", &rows);
    assert_eq!(
        texts_of(&out),
        lines(&[
            "--- f.txt",
            "+++ f.txt",
            "@@ -1,1 +1,1 @@",
            " a",
            "@@ -2,1 +2,1 @@",
            "-b",
            "+x",
            "@@ -3,1 +3,1 @@",
            " c",
        ])
    );
    assert_eq!(out[0].kind, RenderKind::FileHeader);
    assert_eq!(out[2].kind, RenderKind::HunkHeader);
    assert_eq!(out[3].kind, RenderKind::Context);
    assert_eq!(out[5].kind, RenderKind::Removed);
    assert_eq!(out[6].kind, RenderKind::Added);
}

#[test]
fn new_file_preview_is_all_insert() {
    let out = render_new_file_preview("notes.txt", "hello\nworld\n");
    assert_eq!(
        texts_of(&out),
        lines(&["--- /dev/null", "+++ notes.txt", "@@ -0,0 +1,2 @@", "+hello", "+world"])
    );
    assert_eq!(out[2].kind, RenderKind::HunkHeader);
    assert_eq!(out[3].kind, RenderKind::Added);
}

#[test]
fn display_recomputes_the_true_change() {
    // the preview must reflect the actual old/new difference, not echo
    // the model's hunk text
    let fd = FileDiff {
        file_path: "f.txt".to_string(),
        old_content: "a\nb\nc".to_string(),
        new_content: "a\nx\nc".to_string(),
        is_new_file: false,
    };
    let rows = fd.preview_rows();
    let texts = texts_of(&rows);
    assert!(texts.contains(&"-b".to_string()));
    assert!(texts.contains(&"+x".to_string()));
    assert!(texts.contains(&" a".to_string()));
    let shown = fd.display_diff();
    assert_eq!(
        shown,
        "--- f.txt\n+++ f.txt\n@@ -1,1 +1,1 @@\n a\n@@ -2,1 +2,1 @@\n-b\n+x\n@@ -3,1 +3,1 @@\n c\n"
    );
}

#[test]
fn display_of_new_file_diff() {
    let gen = DiffGenerator::new();
    let dir = DirView::new();
    let fd = gen.parse_diff("notes.txt\n+ hello\n+ world", &dir).unwrap();
    assert_eq!(
        fd.display_string(),
        "--- /dev/null\n+++ notes.txt\n@@ -0,0 +1,2 @@\n+hello\n+world\n"
    );
}

#[test]
fn identical_contents_render_as_pure_context() {
    let fd = FileDiff {
        file_path: "f.txt".to_string(),
        old_content: "a\nb\n".to_string(),
        new_content: "a\nb\n".to_string(),
        is_new_file: false,
    };
    let texts = texts_of(&fd.preview_rows());
    assert_eq!(
        texts,
        lines(&["--- f.txt", "+++ f.txt", "@@ -1,2 +1,2 @@", " a", " b"])
    );
}

#[test]
fn config_prefers_the_model_specific_prompt() {
    let config = Config {
        default_system_prompt: "default".to_string(),
        model_prompts: vec![
            ("alpha".to_string(), "prompt-a".to_string()),
            ("beta".to_string(), "prompt-b".to_string()),
        ],
    };
    assert_eq!(config.get_system_prompt("beta"), "prompt-b");
    assert_eq!(config.get_system_prompt("alpha"), "prompt-a");
    assert_eq!(config.get_system_prompt("gamma"), "default");
}

#[test]
fn default_config_has_the_stock_prompt_and_no_overrides() {
    let config = Config::default();
    assert_eq!(config.default_system_prompt, default_system_prompt());
    assert!(config.model_prompts.is_empty());
    assert_eq!(config.get_system_prompt("anything"), default_system_prompt());
}

#[test]
fn well_known_paths_are_joined_to_the_config_directory() {
    assert_eq!(get_config_path("/home/u/.code-llm"), "/home/u/.code-llm/config.toml");
    assert_eq!(get_history_file_path("/home/u/.code-llm"), "/home/u/.code-llm/history");
    assert_eq!(default_api_url(), "http://localhost:11434");
}

#[test]
fn prompt_is_assembled_under_fixed_headings() {
    let p = code_llm::build_prompt("User: hi\nAssistant: hello", "--- f.txt\nabc\n", "change it");
    assert_eq!(
        p,
        "User: hi\nAssistant: hello\n\nContext of the current directory:\n--- f.txt\nabc\n\n\nUser request: change it"
    );
}

#[test]
fn split_and_join_round_trip() {
    assert_eq!(split_lines("a\nb\nc\n"), lines(&["a", "b", "c"]));
    assert_eq!(split_lines("a\nb"), lines(&["a", "b"]));
    assert_eq!(split_lines(""), lines(&[]));
    assert_eq!(split_lines("\n"), lines(&[""]));
    assert_eq!(join_text(&lines(&["a", "b", "c"]), true), "a\nb\nc\n");
    assert_eq!(join_text(&lines(&["a", "b"]), false), "a\nb");
    assert_eq!(join_text(&lines(&[]), false), "");
}

#[test]
fn decimal_printing_and_parsing() {
    assert_eq!(usize_to_string(0), "0");
    assert_eq!(usize_to_string(12345), "12345");
    assert_eq!(parse_dec_saturating("0"), 0);
    assert_eq!(parse_dec_saturating("007"), 7);
    assert_eq!(parse_dec_saturating("18446744073709551615"), usize::MAX);
    // a value past the limit clamps instead of failing
    assert_eq!(parse_dec_saturating("99999999999999999999999"), usize::MAX);
}

#[test]
fn binary_names_are_recognized_case_insensitively() {
    assert!(is_binary_name("photo.PNG"));
    assert!(is_binary_name("archive.tar"));
    assert!(is_binary_name("lib.So"));
    assert!(!is_binary_name("main.rs"));
    assert!(!is_binary_name("README"));
    assert_eq!(ascii_lowercase("MiXeD123"), "mixed123");
}

#[test]
fn null_byte_detection() {
    assert!(has_null_byte(&vec![1u8, 2, 0, 3]));
    assert!(!has_null_byte(&vec![1u8, 2, 3]));
    assert!(!has_null_byte(&Vec::new()));
    // a null byte beyond the checked prefix is not seen
    let mut data = vec![7u8; 9000];
    data[8999] = 0;
    assert!(!has_null_byte(&data));
    data[100] = 0;
    assert!(has_null_byte(&data));
}
