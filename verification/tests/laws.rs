use ase_ls_core::analysis::DocumentAnalysis;
use ase_ls_core::code_actions::find_matching_end;
use ase_ls_core::config::DocumentLinkConfig;
use ase_ls_core::db_docs::{functions, lookup, lookup_function, DocCategory};
use ase_ls_core::document_links::{document_links, path_within};
use ase_ls_core::incremental::{apply_content_change, ContentChange};
use ase_ls_core::line_index::LineIndex;
use ase_ls_core::symbol_store::{DocumentSource, SymbolStore};
use ase_ls_core::ast::{ColumnDefinition, CreateStatement, Ident, Statement, TableDefinition};
use ase_ls_core::folding::{folding_ranges_with_analysis, FoldingRangeKind};
use ase_ls_core::position::{Position, Range};
use ase_ls_core::references::reference_ranges_with_analysis;
use ase_ls_core::semantic_tokens::{DeltaEncoder, SemanticToken};
use ase_ls_core::symbol_table::{CaseInsensitiveKey, SymbolMap, SymbolTable, SymbolTableBuilder};
use ase_ls_core::token::{OwnedToken, Span, TokenKind};

fn tok(kind: TokenKind, text: &str, start: u32) -> OwnedToken {
    OwnedToken { kind, text: text.to_string(), span: Span { start, end: start + text.len() as u32 } }
}

#[test]
fn symbol_map_read_after_write() {
    let mut m: SymbolMap<i32> = SymbolMap::new();
    m.insert(CaseInsensitiveKey::new("Users"), 1);
    m.insert(CaseInsensitiveKey::new("orders"), 2);
    assert_eq!(m.get("USERS"), Some(&1));
    m.insert(CaseInsensitiveKey::new("users"), 3);
    assert_eq!(m.get("Users"), Some(&3));
    assert_eq!(m.get("ORDERS"), Some(&2));
    assert_eq!(m.len(), 2);
    assert!(m.get("missing").is_none());
}

fn ident(name: &str, start: u32) -> Ident {
    Ident { name: name.to_string(), span: Span { start, end: start + name.len() as u32 } }
}

fn create_table(name: &str, cols: &[&str]) -> Statement {
    let td = TableDefinition {
        name: ident(name, 13),
        columns: cols
            .iter()
            .map(|c| ColumnDefinition { name: ident(c, 20), data_type: "INT".to_string(), nullability: None, identity: false })
            .collect(),
        constraints: Vec::new(),
        temporary: false,
        span: Span { start: 0, end: 30 },
    };
    Statement::Create(Box::new(CreateStatement::Table(td)))
}

#[test]
fn last_table_definition_wins() {
    let source = "CREATE TABLE t (a INT)\nCREATE TABLE T (b INT, c INT)";
    let stmts = vec![create_table("t", &["a"]), create_table("T", &["b", "c"])];
    let table = SymbolTableBuilder::build(source, &stmts);
    let t = SymbolTableBuilder::find_table(&table, "t").unwrap();
    assert_eq!(t.name, "T");
    assert_eq!(t.columns.len(), 2);
    assert_eq!(t.columns[0].name, "b");
    assert_eq!(t.columns[0].table_name, "T");
}

#[test]
fn delta_encoding_roundtrip() {
    let mut enc = DeltaEncoder::new();
    let mut out: Vec<SemanticToken> = Vec::new();
    let positions = [(0u32, 5u32, 3u32), (0, 9, 2), (2, 3, 4), (2, 3, 1), (7, 0, 6)];
    for (i, (l, c, len)) in positions.iter().enumerate() {
        enc.push(&mut out, *l, *c, *len, i as u32);
    }
    assert_eq!(out[1], SemanticToken { delta_line: 0, delta_start: 4, length: 2, token_type: 1, token_modifiers_bitset: 0 });
    assert_eq!(out[2], SemanticToken { delta_line: 2, delta_start: 3, length: 4, token_type: 2, token_modifiers_bitset: 0 });
    let (mut line, mut ch) = (0u32, 0u32);
    for (i, t) in out.iter().enumerate() {
        if t.delta_line == 0 {
            ch += t.delta_start;
        } else {
            line += t.delta_line;
            ch = t.delta_start;
        }
        assert_eq!((line, ch, t.length), positions[i]);
        assert_eq!(t.token_type, i as u32);
    }
}

#[test]
fn references_without_declaration_are_among_all() {
    let source = "CREATE TABLE t (id INT)\nSELECT * FROM t";
    let tokens = vec![tok(TokenKind::Ident, "t", 13), tok(TokenKind::Ident, "t", 38)];
    let a = DocumentAnalysis::from_parts(source.to_string(), tokens, Vec::new(), Vec::new(), SymbolTable::new());
    let at = Position::new(1, 14);
    let all = reference_ranges_with_analysis(&a, at, true);
    let usages = reference_ranges_with_analysis(&a, at, false);
    assert_eq!(
        all,
        vec![
            Range::new(Position::new(0, 13), Position::new(0, 14)),
            Range::new(Position::new(1, 14), Position::new(1, 15)),
        ]
    );
    assert_eq!(usages, vec![Range::new(Position::new(1, 14), Position::new(1, 15))]);
    assert!(usages.iter().all(|r| all.contains(r)));
}

#[test]
fn comment_folds_span_lines() {
    let source = "/* one\ntwo */\n/* single */\nSELECT 1";
    let a = DocumentAnalysis::from_parts(source.to_string(), Vec::new(), Vec::new(), Vec::new(), SymbolTable::new());
    let comments = vec![tok(TokenKind::BlockComment, "/* one\ntwo */", 0), tok(TokenKind::BlockComment, "/* single */", 14)];
    let folds = folding_ranges_with_analysis(&a, &comments);
    assert_eq!(folds.len(), 1);
    assert_eq!(folds[0].start_line, 0);
    assert_eq!(folds[0].end_line, 1);
    assert_eq!(folds[0].kind, Some(FoldingRangeKind::Comment));
    assert!(folds.iter().all(|f| f.start_line < f.end_line));
}


#[test]
fn line_is_count_of_line_feeds() {
    let text = "ab\ncd\n\nxyz";
    let idx = LineIndex::new(text);
    for offset in 0..(text.len() as u32 + 5) {
        let k = (offset as usize).min(text.len());
        let feeds = text.as_bytes()[..k].iter().filter(|b| **b == b'\n').count() as u32;
        let (line, character) = idx.offset_to_position(offset);
        assert_eq!(line, feeds);
        assert!((line as usize) < idx.line_count());
        assert_eq!(character, offset - idx.line_offset(line as usize) as u32);
    }
}

#[test]
fn change_snaps_to_character_boundaries() {
    let text = "aé\nb";
    let idx = LineIndex::new(text);
    let change = ContentChange {
        range: Some(Range::new(Position::new(0, 2), Position::new(0, 2))),
        range_length: None,
        text: "X".to_string(),
    };
    assert_eq!(apply_content_change(text, &idx, &change), "aéX\nb");
    let reversed = ContentChange {
        range: Some(Range::new(Position::new(1, 1), Position::new(0, 1))),
        range_length: None,
        text: "-".to_string(),
    };
    assert_eq!(apply_content_change(text, &idx, &reversed), "a-é\nb");
}

#[test]
fn lookup_finds_the_only_entry_of_a_name() {
    let sub = lookup_function("SUBSTRING").unwrap();
    assert_eq!(sub.name, "SUBSTRING");
    assert_eq!(sub.category, DocCategory::Function);
    assert_eq!(functions().iter().filter(|e| e.name == "SUBSTRING").count(), 1);
    assert!(lookup_function("substring").is_none());
    assert_eq!(lookup("SELECT").unwrap().category, DocCategory::Keyword);
    assert_eq!(lookup("GETDATE").unwrap().category, DocCategory::Function);
}

#[test]
fn matching_end_is_first_zero_count_line() {
    let text = "BEGIN\n  BEGIN\n  END\nEND\nEND";
    assert_eq!(find_matching_end(text, 0), Some(3));
    assert_eq!(find_matching_end(text, 1), Some(2));
    assert_eq!(find_matching_end("BEGIN\nSELECT 1", 0), None);
}

#[test]
fn closing_an_empty_store_lists_no_name() {
    let mut store = SymbolStore::new();
    store.close("file:///a.sql");
    assert_eq!(store.len(), 0);
    assert!(store.is_empty());
}

#[test]
fn repeated_upsert_lists_the_same_names() {
    let src = "CREATE TABLE users (id INT)";
    let table = SymbolTableBuilder::build(src, &vec![create_table("users", &["id"])]);
    let a = DocumentAnalysis::from_parts(src.to_string(), Vec::new(), Vec::new(), Vec::new(), table);
    let mut store = SymbolStore::new();
    store.upsert("file:///a.sql", &a, DocumentSource::Open);
    let once: Vec<String> = store.iter().iter().map(|(k, _)| k.as_str().to_string()).collect();
    store.upsert("file:///a.sql", &a, DocumentSource::Open);
    let twice: Vec<String> = store.iter().iter().map(|(k, _)| k.as_str().to_string()).collect();
    assert_eq!(once, twice);
    assert_eq!(store.len(), 1);
    assert!(store.lookup("Users").iter().all(|e| e.name.to_uppercase() == "USERS"));
    store.close("file:///a.sql");
    assert!(store.is_empty());
}

#[test]
fn link_tokens_past_the_end_are_skipped() {
    let src = ":r a.sql";
    let tokens = vec![tok(TokenKind::Colon, ":", 40), tok(TokenKind::Ident, "r", 41), tok(TokenKind::Colon, ":", 0), tok(TokenKind::Ident, "r", 1)];
    let a = DocumentAnalysis::from_parts(src.to_string(), tokens, Vec::new(), Vec::new(), SymbolTable::new());
    let links = document_links(&a, "file:///home/u/main.sql", &DocumentLinkConfig { enable: true });
    assert_eq!(links.len(), 1);
    assert_eq!(links[0].target.as_deref(), Some("file:///home/u/a.sql"));
}


#[test]
fn white_space_set_is_that_of_std() {
    for c in (0u32..=0x10FFFF).filter_map(char::from_u32) {
        assert_eq!(ase_ls_core::text::char_is_whitespace(c), c.is_whitespace(), "{:?}", c);
    }
}

#[test]
fn path_within_directory() {
    assert!(path_within("/home/u/a.sql", "/home/u/"));
    assert!(path_within("/home/u/sub/a.sql", "/home/u"));
    assert!(path_within("/home/u", "/home/u"));
    assert!(!path_within("/home/user/a.sql", "/home/u"));
    assert!(!path_within("/home/a.sql", "/home/u/"));
}

#[test]
fn delta_encoding_of_a_document_decodes_back() {
    let items = [(0u32, 4u32, 3u32, 1u32), (0, 9, 2, 0), (2, 1, 5, 6), (2, 1, 1, 2)];
    let mut enc = DeltaEncoder::new();
    let mut toks: Vec<SemanticToken> = Vec::new();
    for (l, c, len, ty) in items {
        enc.push(&mut toks, l, c, len, ty);
    }
    assert_eq!(toks.len(), items.len());
    let (mut line, mut ch) = (0u32, 0u32);
    for (t, (l, c, len, ty)) in toks.iter().zip(items) {
        if t.delta_line == 0 {
            ch += t.delta_start;
        } else {
            line += t.delta_line;
            ch = t.delta_start;
        }
        assert_eq!((line, ch, t.length, t.token_type, t.token_modifiers_bitset), (l, c, len, ty, 0));
    }
}

#[test]
fn line_starts_follow_line_feeds() {
    let text = "a\n\nbc\nd";
    let idx = LineIndex::new(text);
    let feeds: Vec<usize> = text.bytes().enumerate().filter(|(_, b)| *b == b'\n').map(|(i, _)| i).collect();
    assert_eq!(idx.line_count(), feeds.len() + 1);
    assert_eq!(idx.line_offset(0), 0);
    for (i, f) in feeds.iter().enumerate() {
        assert_eq!(idx.line_offset(i + 1), f + 1);
    }
}

