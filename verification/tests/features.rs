use ase_ls_core::analysis::DocumentAnalysis;
use ase_ls_core::ast::{ColumnDefinition, CreateStatement, Ident, Statement, TableDefinition};
use ase_ls_core::code_actions::{code_actions_with_analysis, find_matching_end, CodeActionKind};
use ase_ls_core::config::DocumentLinkConfig;
use ase_ls_core::document_links::{
    document_links, is_at_line_start, line_end_from, link_uri, resolve_document_link, strip_surrounding_quotes,
};
use ase_ls_core::position::{Position, Range};
use ase_ls_core::references::ends_with_ignore_ascii_case;
use ase_ls_core::symbol_store::DocumentSource;
use ase_ls_core::symbol_table::{CaseInsensitiveKey, SymbolTable, SymbolTableBuilder};
use ase_ls_core::token::{OwnedToken, Span, TokenKind};
use std::collections::HashMap;

#[test]
fn strip_surrounding_quotes_handles_all_forms() {
    assert_eq!(strip_surrounding_quotes("'abc'"), "abc");
    assert_eq!(strip_surrounding_quotes("\"abc\""), "abc");
    assert_eq!(strip_surrounding_quotes("abc"), "abc");
    assert_eq!(strip_surrounding_quotes("'a"), "'a");
    assert_eq!(strip_surrounding_quotes(""), "");
}

#[test]
fn test_ends_with_ignore_ascii_case() {
    assert!(ends_with_ignore_ascii_case("CREATE TABLE", "TABLE"));
    assert!(ends_with_ignore_ascii_case("create table", "TABLE"));
    assert!(ends_with_ignore_ascii_case("CREATE table", "CREATE TABLE"));
    assert!(!ends_with_ignore_ascii_case("CREATE", "CREATE TABLE"));
    assert!(ends_with_ignore_ascii_case("DECLARE", "DECLARE"));
    assert!(!ends_with_ignore_ascii_case("DECLARE @x", "DECLARE"));
}

#[test]
fn test_document_source_is_live() {
    assert!(DocumentSource::Open.is_live());
    assert!(DocumentSource::Live.is_live());
    assert!(!DocumentSource::Background.is_live());
}

#[test]
fn test_case_insensitive_key_equality() {
    let a = CaseInsensitiveKey::new("Users");
    let b = CaseInsensitiveKey::new("users");
    let c = CaseInsensitiveKey::new("USERS");
    assert_eq!(a, b);
    assert_eq!(a, c);
}

#[test]
fn test_case_insensitive_key_hash_match() {
    let mut map: HashMap<CaseInsensitiveKey, i32> = HashMap::new();
    map.insert(CaseInsensitiveKey::new("Users"), 1);
    assert_eq!(map.get("USERS"), Some(&1));
    assert_eq!(map.get("unknown"), None);
    let upper = "USERS".to_string();
    assert_eq!(map.get(&upper), Some(&1));
}

#[test]
fn test_case_insensitive_key_borrow_string() {
    let mut map: HashMap<CaseInsensitiveKey, i32> = HashMap::new();
    map.insert(CaseInsensitiveKey::new("Tbl"), 42);
    let upper = "TBL".to_string();
    assert_eq!(map.get(&upper), Some(&42));
}

#[test]
fn case_insensitive_key_holds_upper_case() {
    assert_eq!(CaseInsensitiveKey::new("straße").as_str(), "STRASSE");
    assert_eq!(CaseInsensitiveKey::new("mixed_Case1").as_str(), "MIXED_CASE1");
}

#[test]
fn line_start_and_line_end_helpers() {
    assert!(is_at_line_start(":r x", 0));
    assert!(is_at_line_start("  \t:r x", 3));
    assert!(is_at_line_start("SELECT 1\n  :r x", 11));
    assert!(is_at_line_start("a\r:r", 2));
    assert!(!is_at_line_start("SELECT :r x", 7));
    assert_eq!(line_end_from(b"abc\ndef", 0), 3);
    assert_eq!(line_end_from(b"abc\r\ndef", 1), 3);
    assert_eq!(line_end_from(b"abc", 1), 3);
    assert_eq!(line_end_from(b"abc", 10), 3);
}

#[test]
fn matching_end_counts_nested_blocks() {
    let source = "BEGIN\n  IF 1 = 1\n  begin\n    SELECT 1\n  END\nend\nSELECT 2";
    assert_eq!(find_matching_end(source, 0), Some(5));
    assert_eq!(find_matching_end(source, 2), Some(4));
    assert_eq!(find_matching_end("BEGIN\nSELECT 1", 0), None);
    assert_eq!(find_matching_end("BEGIN", 7), None);
    assert_eq!(find_matching_end("BEGIN\r\nEND\r\n", 0), Some(1));
}

fn analysis(source: &str, tokens: Vec<OwnedToken>, statements: Vec<Statement>, table: SymbolTable) -> DocumentAnalysis {
    DocumentAnalysis::from_parts(source.to_string(), tokens, statements, Vec::new(), table)
}

fn tok(kind: TokenKind, text: &str, start: u32, end: u32) -> OwnedToken {
    OwnedToken { kind, text: text.to_string(), span: Span { start, end } }
}

#[test]
fn text_fallback_wraps_begin_end_in_try_catch() {
    let source = "  BEGIN\n    SELECT 1\n  END\n";
    let a = analysis(source, Vec::new(), Vec::new(), SymbolTable::new());
    let uri = "file:///a.sql".to_string();
    let actions = code_actions_with_analysis(&a, Range::new(Position::new(0, 2), Position::new(0, 2)), &uri);
    assert_eq!(actions.len(), 1);
    let act = &actions[0];
    assert_eq!(act.title, "Wrap with TRY...CATCH");
    assert_eq!(act.kind, CodeActionKind::Refactor);
    assert_eq!(act.is_preferred, None);
    assert_eq!(act.edit.changes.len(), 1);
    assert_eq!(act.edit.changes[0].0, uri);
    let edit = &act.edit.changes[0].1[0];
    assert_eq!(edit.range, Range::new(Position::new(0, 0), Position::new(2, 5)));
    assert_eq!(
        edit.new_text,
        "  BEGIN TRY\n      BEGIN\n      END\n  END TRY\n  BEGIN CATCH\n      -- Handle error\n  END CATCH"
    );
}

fn ident(name: &str, start: u32) -> Ident {
    Ident { name: name.to_string(), span: Span { start, end: start + name.len() as u32 } }
}

fn users_table() -> (String, Vec<Statement>) {
    let ddl = "CREATE TABLE users (id INT IDENTITY, name VARCHAR(10))".to_string();
    let td = TableDefinition {
        name: ident("users", 13),
        columns: vec![
            ColumnDefinition { name: ident("id", 20), data_type: "INT".to_string(), nullability: None, identity: true },
            ColumnDefinition { name: ident("name", 37), data_type: "VARCHAR(10)".to_string(), nullability: None, identity: false },
        ],
        constraints: Vec::new(),
        temporary: false,
        span: Span { start: 0, end: 54 },
    };
    (ddl, vec![Statement::Create(Box::new(CreateStatement::Table(td)))])
}

#[test]
fn line_fallback_generates_insert_skeleton() {
    let (ddl, stmts) = users_table();
    let table = SymbolTableBuilder::build(&ddl, &stmts);
    let source = "INSERT INTO Users;";
    let a = analysis(source, Vec::new(), Vec::new(), table);
    let uri = "file:///a.sql".to_string();
    let actions = code_actions_with_analysis(&a, Range::new(Position::new(0, 3), Position::new(0, 3)), &uri);
    assert_eq!(actions.len(), 1);
    let act = &actions[0];
    assert_eq!(act.title, "Generate INSERT skeleton for Users");
    assert_eq!(act.kind, CodeActionKind::QuickFix);
    assert_eq!(act.is_preferred, Some(true));
    let edit = &act.edit.changes[0].1[0];
    assert_eq!(edit.range, Range::new(Position::new(0, 0), Position::new(0, 18)));
    assert_eq!(edit.new_text, "INSERT INTO Users (name) VALUES (?)");
}

#[test]
fn line_fallback_skips_lines_with_values() {
    let (ddl, stmts) = users_table();
    let table = SymbolTableBuilder::build(&ddl, &stmts);
    let a = analysis("insert into users values (1)", Vec::new(), Vec::new(), table);
    let uri = "file:///a.sql".to_string();
    let actions = code_actions_with_analysis(&a, Range::new(Position::new(0, 0), Position::new(0, 0)), &uri);
    assert!(actions.is_empty());
}

fn link_analysis(source: &str) -> DocumentAnalysis {
    let mut tokens = Vec::new();
    let bytes = source.as_bytes();
    for (i, b) in bytes.iter().enumerate() {
        if *b == b':' && i + 1 < bytes.len() {
            tokens.push(tok(TokenKind::Colon, ":", i as u32, i as u32 + 1));
            let r = &source[i + 1..i + 2];
            tokens.push(tok(TokenKind::Ident, r, i as u32 + 1, i as u32 + 2));
        }
    }
    analysis(source, tokens, Vec::new(), SymbolTable::new())
}

fn base() -> &'static str {
    "file:///home/user/scripts/main.sql"
}

#[test]
fn document_links_resolve_relative_paths() {
    let a = link_analysis(":r init.sql\n  :R \"sub\\other.sql\"\nSELECT 1 :r mid.sql\n:r ../../etc/passwd\n:r /abs.sql\n:r");
    let links = document_links(&a, base(), &DocumentLinkConfig { enable: true });
    assert_eq!(links.len(), 2);
    assert_eq!(links[0].target.as_deref(), Some("file:///home/user/scripts/init.sql"));
    assert_eq!(links[0].range, Range::new(Position::new(0, 0), Position::new(0, 11)));
    assert_eq!(links[1].target.as_deref(), Some("file:///home/user/scripts/sub/other.sql"));
    assert_eq!(links[1].range, Range::new(Position::new(1, 2), Position::new(1, 20)));
    let data = links[1].data.as_ref().unwrap();
    assert_eq!(data.uri, base());
    assert_eq!(data.raw_path, "sub\\other.sql");
    assert!(document_links(&a, base(), &DocumentLinkConfig { enable: false }).is_empty());
}

#[test]
fn resolved_link_keeps_target_and_uri() {
    let a = link_analysis(":r 'init.sql'\n");
    let links = document_links(&a, base(), &DocumentLinkConfig { enable: true });
    assert_eq!(links.len(), 1);
    let resolved = resolve_document_link(&links[0], &a).unwrap();
    assert_eq!(resolved.target, links[0].target);
    assert_eq!(resolved.range, links[0].range);
    assert_eq!(link_uri(&links[0]).as_deref(), Some(base()));
    let mut bare = resolved;
    bare.data = None;
    assert!(resolve_document_link(&bare, &a).is_none());
    assert!(link_uri(&bare).is_none());
}

