use ase_ls_core::line_index::LineIndex;
use ase_ls_core::position::Position;

#[test]
fn line_index_test_empty_source() {
    let idx = LineIndex::new("");
    assert_eq!(idx.line_count(), 1);
    assert_eq!(idx.offset_to_position(0), (0, 0));
}

#[test]
fn test_single_line() {
    let idx = LineIndex::new("SELECT * FROM users");
    assert_eq!(idx.offset_to_position(0), (0, 0));
    assert_eq!(idx.offset_to_position(6), (0, 6));
    assert_eq!(idx.offset_to_position(18), (0, 18));
}

#[test]
fn test_two_lines() {
    let idx = LineIndex::new("SELECT *\nFROM users");
    assert_eq!(idx.line_count(), 2);
    assert_eq!(idx.offset_to_position(0), (0, 0));
    assert_eq!(idx.offset_to_position(8), (0, 8));
    assert_eq!(idx.offset_to_position(9), (1, 0));
    assert_eq!(idx.offset_to_position(14), (1, 5));
}

#[test]
fn test_many_lines() {
    let source = "line1\nline2\nline3\nline4\n";
    let idx = LineIndex::new(source);
    assert_eq!(idx.line_count(), 5);
    assert_eq!(idx.offset_to_position(0), (0, 0));
    assert_eq!(idx.offset_to_position(6), (1, 0));
    assert_eq!(idx.offset_to_position(12), (2, 0));
    assert_eq!(idx.offset_to_position(18), (3, 0));
}

#[test]
fn test_offset_beyond_end() {
    let idx = LineIndex::new("abc\n");
    assert_eq!(idx.offset_to_position(100), (1, 96));
}

#[test]
fn test_consecutive_newlines() {
    let idx = LineIndex::new("a\n\nb");
    assert_eq!(idx.line_count(), 3);
    assert_eq!(idx.offset_to_position(0), (0, 0));
    assert_eq!(idx.offset_to_position(2), (1, 0));
    assert_eq!(idx.offset_to_position(3), (2, 0));
}

#[test]
fn test_crlf_treated_as_two_lines() {
    let idx = LineIndex::new("a\r\nb");
    assert_eq!(idx.line_count(), 2);
    assert_eq!(idx.offset_to_position(0), (0, 0));
    assert_eq!(idx.offset_to_position(1), (0, 1));
    assert_eq!(idx.offset_to_position(2), (0, 2));
    assert_eq!(idx.offset_to_position(3), (1, 0));
}

#[test]
fn test_line_offset_method() {
    let source = "abc\ndef\nghi";
    let idx = LineIndex::new(source);
    assert_eq!(idx.line_offset(0), 0);
    assert_eq!(idx.line_offset(1), 4);
    assert_eq!(idx.line_offset(2), 8);
    assert_eq!(idx.line_offset(99), 0);
}

#[test]
fn test_position_to_offset_single_line() {
    let source = "SELECT * FROM users";
    let idx = LineIndex::new(source);
    assert_eq!(idx.position_to_offset(source, Position::new(0, 0)), 0);
    assert_eq!(idx.position_to_offset(source, Position::new(0, 7)), 7);
    assert_eq!(idx.position_to_offset(source, Position::new(0, 19)), 19);
}

#[test]
fn test_position_to_offset_multiline() {
    let source = "SELECT *\nFROM users";
    let idx = LineIndex::new(source);
    assert_eq!(idx.position_to_offset(source, Position::new(0, 0)), 0);
    assert_eq!(idx.position_to_offset(source, Position::new(1, 0)), 9);
    assert_eq!(idx.position_to_offset(source, Position::new(1, 5)), 14);
}

#[test]
fn test_position_to_offset_beyond_end() {
    let source = "abc";
    let idx = LineIndex::new(source);
    assert_eq!(idx.position_to_offset(source, Position::new(5, 0)), 3);
    assert_eq!(idx.position_to_offset(source, Position::new(0, 100)), 3);
}

fn linear_offset_to_position(source: &str, offset: u32) -> (u32, u32) {
    let mut line = 0u32;
    let mut last_newline = 0u32;
    let bytes = source.as_bytes();
    let end = (offset as usize).min(bytes.len());
    for (i, &b) in bytes.iter().enumerate().take(end) {
        if b == b'\n' {
            line += 1;
            last_newline = (i + 1) as u32;
        }
    }
    let character = offset.saturating_sub(last_newline);
    (line, character)
}

fn linear_position_to_offset(source: &str, position: Position) -> usize {
    let mut offset = 0;
    let mut current_line = 0u32;
    for ch in source.chars() {
        if current_line == position.line {
            let char_offset = offset;
            let chars_to_target = position.character as usize;
            let mut counted = 0;
            for c in source[char_offset..].chars() {
                if counted >= chars_to_target {
                    return char_offset + counted;
                }
                counted += c.len_utf8();
            }
            return char_offset + counted;
        }
        offset += ch.len_utf8();
        if ch == '\n' {
            current_line += 1;
        }
    }
    offset
}

#[test]
fn test_consistency_with_old_implementation() {
    let source = "CREATE TABLE users (\n  id INT,\n  name VARCHAR(100)\n)";
    let idx = LineIndex::new(source);
    for offset in 0..=source.len() {
        let (line, character) = idx.offset_to_position(offset as u32);
        let (line2, char2) = linear_offset_to_position(source, offset as u32);
        assert_eq!((line, character), (line2, char2), "Mismatch at offset {offset}");
    }
}

#[test]
fn test_consistency_position_to_offset() {
    let source = "CREATE TABLE users (\n  id INT,\n  name VARCHAR(100)\n)";
    let idx = LineIndex::new(source);
    for line in 0..4 {
        for col in 0..25 {
            let offset = idx.position_to_offset(source, Position::new(line, col));
            let expected = linear_position_to_offset(source, Position::new(line, col));
            assert_eq!(offset, expected, "Mismatch at line {line}, col {col}");
        }
    }
}

#[test]
fn test_multibyte_position_to_offset() {
    let source = "SELECT あ";
    let idx = LineIndex::new(source);
    assert_eq!(idx.position_to_offset(source, Position::new(0, 7)), 7);
    assert_eq!(idx.position_to_offset(source, Position::new(0, 8)), 10);
}

#[test]
fn test_position_to_offset_crlf_source() {
    let source = "abc\r\ndef";
    let idx = LineIndex::new(source);
    assert_eq!(idx.position_to_offset(source, Position::new(1, 0)), 5);
    assert_eq!(idx.position_to_offset(source, Position::new(1, 3)), 8);
}

#[test]
fn line_start_is_at_first_character() {
    let source = "ab\ncd\n\nef";
    let idx = LineIndex::new(source);
    for l in 0..idx.line_count() {
        let start = idx.line_offset(l) as u32;
        assert_eq!(idx.offset_to_position(start), (l as u32, 0));
        assert_eq!(idx.line_number(start), l as u32);
    }
}

#[test]
fn offset_position_roundtrip_on_boundaries() {
    let source = "SELECT あ\r\nFROM t\n";
    let idx = LineIndex::new(source);
    for offset in 0..=source.len() {
        if !source.is_char_boundary(offset) {
            continue;
        }
        let (line, character) = idx.offset_to_position(offset as u32);
        assert_eq!(idx.position_to_offset(source, Position::new(line, character)), offset);
    }
}

