use ase_ls_core::incremental::{apply_content_change, ContentChange};
use ase_ls_core::line_index::LineIndex;
use ase_ls_core::position::{Position, Range};

fn apply(source: &str, range: Option<Range>, text: &str) -> String {
    let index = LineIndex::new(source);
    let change = ContentChange { range, range_length: None, text: text.to_string() };
    apply_content_change(source, &index, &change)
}

fn r(sl: u32, sc: u32, el: u32, ec: u32) -> Option<Range> {
    Some(Range::new(Position::new(sl, sc), Position::new(el, ec)))
}

#[test]
fn test_insert_within_single_line() {
    assert_eq!(apply("SELECT 1", r(0, 7, 0, 7), "DISTINCT "), "SELECT DISTINCT 1");
}

#[test]
fn test_append_at_end_of_line() {
    assert_eq!(apply("SELECT *", r(0, 9, 0, 9), " FROM t"), "SELECT * FROM t");
}

#[test]
fn test_replace_range_within_line() {
    assert_eq!(apply("SELECT * FROM users", r(0, 14, 0, 19), "orders"), "SELECT * FROM orders");
}

#[test]
fn test_delete_multiple_lines() {
    assert_eq!(apply("line1\nline2\nline3", r(1, 0, 2, 0), ""), "line1\nline3");
}

#[test]
fn test_replace_whole_line() {
    assert_eq!(apply("SELECT 1\nFROM t\nWHERE 1", r(1, 0, 1, 6), "FROM users"), "SELECT 1\nFROM users\nWHERE 1");
}

#[test]
fn test_full_replace_when_range_none() {
    assert_eq!(apply("old content", None, "brand new content"), "brand new content");
}

#[test]
fn test_clamp_position_beyond_end() {
    assert_eq!(apply("abc", r(100, 100, 100, 100), "X"), "abcX");
}

#[test]
fn test_multibyte_boundary_insert_no_panic() {
    assert_eq!(apply("SELECT あ", r(0, 7, 0, 7), "X"), "SELECT Xあ");
}

#[test]
fn test_crlf_source_range_apply() {
    assert_eq!(apply("abc\r\ndef", r(1, 0, 1, 0), "XY"), "abc\r\nXYdef");
}

#[test]
fn test_empty_string_insert_is_delete() {
    assert_eq!(apply("SELECT X FROM t", r(0, 7, 0, 9), ""), "SELECT FROM t");
}

#[test]
fn test_start_equals_end_is_pure_insert() {
    assert_eq!(apply("SELECT 1", r(0, 7, 0, 7), "DISTINCT "), "SELECT DISTINCT 1");
}

#[test]
fn test_reversed_range_clamped_to_insert() {
    assert_eq!(apply("abcdef", r(0, 4, 0, 2), "Z"), "abZcdef");
}

#[test]
fn test_multibyte_midpoint_position_clamped() {
    assert_eq!(apply("あいう", r(0, 1, 0, 1), "X"), "あXいう");
}

#[test]
fn test_empty_source_full_replace() {
    assert_eq!(apply("", None, "new"), "new");
}

#[test]
fn test_empty_source_insert_at_origin() {
    assert_eq!(apply("", r(0, 0, 0, 0), "abc"), "abc");
}

#[test]
fn test_consistent_with_line_index_fixture() {
    assert_eq!(apply("SELECT * FROM users", r(0, 0, 0, 6), "INSERT"), "INSERT * FROM users");
}

#[test]
fn empty_insertion_keeps_text_everywhere() {
    let source = "ab\r\nあい\n\nz";
    for line in 0..5 {
        for col in 0..8 {
            assert_eq!(apply(source, r(line, col, line, col), ""), source);
        }
    }
}

