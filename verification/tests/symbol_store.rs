use ase_ls_core::analysis::DocumentAnalysis;
use ase_ls_core::ast::{
    CreateStatement, Ident, IndexDefinition, ProcedureDefinition, SelectStatement, Statement, TableDefinition,
    TriggerDefinition, VariableDeclaration, ViewDefinition,
};
use ase_ls_core::position::Position;
use ase_ls_core::symbol_store::{DocumentSource, SymbolKind, SymbolStore};
use ase_ls_core::symbol_table::SymbolTableBuilder;
use ase_ls_core::token::Span;

/// Statements that define objects, each given by its kind, name and the
/// text that precedes the name in the source.
enum Def<'a> {
    Table(&'a str, &'a str),
    View(&'a str, &'a str),
    Proc(&'a str, &'a str),
    Index(&'a str, &'a str, &'a str),
    Trigger(&'a str, &'a str, &'a str),
    Declare(&'a str, &'a str),
}

fn ident_after(src: &str, before: &str, name: &str) -> Ident {
    let start = (src.find(before).unwrap() + before.len()) as u32;
    Ident { name: name.to_string(), span: Span { start, end: start + name.len() as u32 } }
}

fn empty_select() -> SelectStatement {
    SelectStatement {
        top: None,
        columns: Vec::new(),
        from: None,
        where_clause: None,
        group_by: Vec::new(),
        having: None,
        order_by: Vec::new(),
        limit: Vec::new(),
        span: Span { start: 0, end: 0 },
    }
}

fn statement(src: &str, d: &Def) -> Statement {
    let span = Span { start: 0, end: src.len() as u32 };
    let create = |c: CreateStatement| Statement::Create(Box::new(c));
    match d {
        Def::Table(before, n) => create(CreateStatement::Table(TableDefinition {
            name: ident_after(src, before, n),
            columns: Vec::new(),
            constraints: Vec::new(),
            temporary: false,
            span,
        })),
        Def::View(before, n) => create(CreateStatement::View(ViewDefinition {
            name: ident_after(src, before, n),
            query: empty_select(),
            span,
        })),
        Def::Proc(before, n) => create(CreateStatement::Procedure(ProcedureDefinition {
            name: ident_after(src, before, n),
            parameters: Vec::new(),
            body: Vec::new(),
            span,
        })),
        Def::Index(before, n, t) => create(CreateStatement::Index(IndexDefinition {
            name: ident_after(src, before, n),
            table: Ident { name: t.to_string(), span },
            columns: Vec::new(),
            unique: false,
            span,
        })),
        Def::Trigger(before, n, t) => create(CreateStatement::Trigger(TriggerDefinition {
            name: ident_after(src, before, n),
            table: Ident { name: t.to_string(), span },
            events: vec!["Insert".to_string()],
            body: Vec::new(),
            span,
        })),
        Def::Declare(before, n) => Statement::Declare {
            variables: vec![VariableDeclaration { name: ident_after(src, before, n), data_type: "INT".to_string() }],
            span,
        },
    }
}

fn analysis_of(src: &str, defs: &[Def]) -> DocumentAnalysis {
    let stmts: Vec<Statement> = defs.iter().map(|d| statement(src, d)).collect();
    let table = SymbolTableBuilder::build(src, &stmts);
    DocumentAnalysis::from_parts(src.to_string(), Vec::new(), stmts, Vec::new(), table)
}

fn users() -> DocumentAnalysis {
    analysis_of("CREATE TABLE users (id INT)", &[Def::Table("CREATE TABLE ", "users")])
}

#[test]
fn test_upsert_table_is_lookupable() {
    let mut store = SymbolStore::new();
    let u = "file:///a.sql";
    store.upsert(u, &users(), DocumentSource::Open);
    let entries = store.lookup("users");
    assert_eq!(entries.len(), 1);
    assert_eq!(entries[0].uri, u);
    assert_eq!(entries[0].kind, SymbolKind::Class);
    assert_eq!(entries[0].container_name, None);
    assert_eq!(entries[0].source, DocumentSource::Open);
}

#[test]
fn test_lookup_is_case_insensitive() {
    let mut store = SymbolStore::new();
    store.upsert("file:///a.sql", &users(), DocumentSource::Open);
    assert!(!store.lookup("USERS").is_empty());
    assert!(!store.lookup("Users").is_empty());
    assert!(!store.lookup("users").is_empty());
}

#[test]
fn test_lookup_unknown_returns_empty() {
    let store = SymbolStore::new();
    assert!(store.lookup("nope").is_empty());
}

#[test]
fn test_category_kind_mapping() {
    let mut store = SymbolStore::new();
    let src = "CREATE TABLE t (id INT)\nCREATE PROCEDURE p AS BEGIN SELECT 1 END\nCREATE VIEW v AS SELECT 1\nCREATE INDEX i ON t (id)\nCREATE TRIGGER tr ON t FOR INSERT AS BEGIN SELECT 1 END\nDECLARE @x INT";
    let a = analysis_of(
        src,
        &[
            Def::Table("CREATE TABLE ", "t"),
            Def::Proc("CREATE PROCEDURE ", "p"),
            Def::View("CREATE VIEW ", "v"),
            Def::Index("CREATE INDEX ", "i", "t"),
            Def::Trigger("CREATE TRIGGER ", "tr", "t"),
            Def::Declare("DECLARE ", "@x"),
        ],
    );
    store.upsert("file:///a.sql", &a, DocumentSource::Open);
    assert_eq!(store.lookup("t")[0].kind, SymbolKind::Class);
    assert_eq!(store.lookup("p")[0].kind, SymbolKind::Function);
    assert_eq!(store.lookup("v")[0].kind, SymbolKind::Interface);
    assert_eq!(store.lookup("i")[0].kind, SymbolKind::Property);
    assert_eq!(store.lookup("tr")[0].kind, SymbolKind::Event);
    assert_eq!(store.lookup("@x")[0].kind, SymbolKind::Variable);
}

#[test]
fn test_container_name_for_index_and_trigger() {
    let mut store = SymbolStore::new();
    let src = "CREATE TABLE t (id INT)\nCREATE INDEX i ON t (id)\nCREATE TRIGGER tr ON t FOR INSERT AS BEGIN SELECT 1 END";
    let a = analysis_of(
        src,
        &[Def::Table("CREATE TABLE ", "t"), Def::Index("CREATE INDEX ", "i", "t"), Def::Trigger("CREATE TRIGGER ", "tr", "t")],
    );
    store.upsert("file:///a.sql", &a, DocumentSource::Open);
    assert_eq!(store.lookup("i")[0].container_name, Some("t".to_string()));
    assert_eq!(store.lookup("tr")[0].container_name, Some("t".to_string()));
    assert_eq!(store.lookup("t")[0].container_name, None);
}

#[test]
fn test_same_name_in_two_files_aggregates() {
    let mut store = SymbolStore::new();
    store.upsert("file:///a.sql", &users(), DocumentSource::Open);
    store.upsert("file:///b.sql", &users(), DocumentSource::Open);
    let entries = store.lookup("users");
    let uris: Vec<&str> = entries.iter().map(|e| e.uri.as_str()).collect();
    assert_eq!(uris.len(), 2);
    assert!(uris.contains(&"file:///a.sql"));
    assert!(uris.contains(&"file:///b.sql"));
}

#[test]
fn test_re_upsert_replaces_previous_contribution() {
    let mut store = SymbolStore::new();
    let u = "file:///a.sql";
    store.upsert(u, &users(), DocumentSource::Open);
    let orders = analysis_of("CREATE TABLE orders (id INT)", &[Def::Table("CREATE TABLE ", "orders")]);
    store.upsert(u, &orders, DocumentSource::Open);
    assert!(store.lookup("users").is_empty(), "users must be evicted by re-upsert");
    assert_eq!(store.lookup("orders").len(), 1);
}

#[test]
fn test_close_evicts_uri_entries_only() {
    let mut store = SymbolStore::new();
    store.upsert("file:///a.sql", &users(), DocumentSource::Open);
    store.upsert("file:///b.sql", &users(), DocumentSource::Open);
    store.close("file:///a.sql");
    let entries = store.lookup("users");
    assert_eq!(entries.len(), 1);
    assert_eq!(entries[0].uri, "file:///b.sql");
}

#[test]
fn test_close_unknown_uri_is_noop() {
    let mut store = SymbolStore::new();
    store.upsert("file:///a.sql", &users(), DocumentSource::Open);
    store.close("file:///never.sql");
    assert_eq!(store.lookup("users").len(), 1);
}

#[test]
fn test_close_removes_name_key_when_empty() {
    let mut store = SymbolStore::new();
    store.upsert("file:///a.sql", &users(), DocumentSource::Open);
    store.close("file:///a.sql");
    assert!(store.is_empty(), "name key should be removed when its last entry closes");
}

#[test]
fn test_open_and_background_coexist_under_same_name() {
    let mut store = SymbolStore::new();
    store.upsert("file:///a.sql", &users(), DocumentSource::Open);
    store.upsert("file:///a.sql", &users(), DocumentSource::Background);
    let entries = store.lookup("users");
    assert_eq!(entries.len(), 1);
    assert_eq!(entries[0].source, DocumentSource::Background);
}

#[test]
fn test_two_uris_open_and_background_kept_separate() {
    let mut store = SymbolStore::new();
    store.upsert("file:///live.sql", &users(), DocumentSource::Open);
    store.upsert("file:///disk.sql", &users(), DocumentSource::Background);
    let entries = store.lookup("users");
    assert_eq!(entries.len(), 2);
    assert!(entries.iter().any(|e| e.source == DocumentSource::Open));
    assert!(entries.iter().any(|e| e.source == DocumentSource::Background));
}

fn table_and_view() -> DocumentAnalysis {
    analysis_of(
        "CREATE TABLE t (id INT)\nCREATE VIEW v AS SELECT 1",
        &[Def::Table("CREATE TABLE ", "t"), Def::View("CREATE VIEW ", "v")],
    )
}

#[test]
fn test_len_counts_distinct_names() {
    let mut store = SymbolStore::new();
    assert!(store.is_empty());
    store.upsert("file:///a.sql", &table_and_view(), DocumentSource::Open);
    assert_eq!(store.len(), 2);
}

#[test]
fn test_iter_yields_all_names() {
    let mut store = SymbolStore::new();
    store.upsert("file:///a.sql", &table_and_view(), DocumentSource::Open);
    let names: Vec<String> = store.iter().iter().map(|(k, _)| k.as_str().to_string()).collect();
    assert!(names.contains(&"T".to_string()));
    assert!(names.contains(&"V".to_string()));
}

#[test]
fn test_range_carried_through() {
    let mut store = SymbolStore::new();
    store.upsert("file:///a.sql", &users(), DocumentSource::Open);
    let entry = &store.lookup("users")[0];
    assert_eq!(entry.range.start, Position { line: 0, character: 13 });
    assert_eq!(entry.range.end, Position { line: 0, character: 18 });
}

#[test]
fn upsert_twice_changes_nothing() {
    let mut once = SymbolStore::new();
    once.upsert("file:///a.sql", &table_and_view(), DocumentSource::Open);
    let mut twice = SymbolStore::new();
    twice.upsert("file:///a.sql", &table_and_view(), DocumentSource::Open);
    twice.upsert("file:///a.sql", &table_and_view(), DocumentSource::Open);
    assert_eq!(once.len(), twice.len());
    for name in ["t", "v"] {
        let a = once.lookup(name);
        let b = twice.lookup(name);
        assert_eq!(a.len(), b.len());
        assert_eq!(a[0].range, b[0].range);
        assert_eq!(a[0].kind, b[0].kind);
    }
}

