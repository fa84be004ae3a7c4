//! Document outline: one symbol per definition, declaration and data
//! statement.

use crate::ast::{CreateStatement, Statement, TableReference, VariableDeclaration};
use crate::hover::join_texts;
use crate::line_index::{line_starts, range_at, LineIndex};
use crate::position::Range;
use crate::symbol_store::SymbolKind;
use crate::token::Span;
use vstd::prelude::*;
use vstd::string::*;

verus! {

/// An outline entry.
pub struct DocumentSymbol {
    /// Name shown.
    pub name: String,
    /// Kind.
    pub kind: SymbolKind,
    /// Range of the statement.
    pub range: Range,
    /// Range selected when the entry is chosen (the same).
    pub selection_range: Range,
}

/// Content of a [`DocumentSymbol`]: name, kind and range.
pub struct OutlineEntry {
    /// Name shown.
    pub name: Seq<char>,
    /// Kind.
    pub kind: SymbolKind,
    /// Range of the statement.
    pub range: Range,
}

/// The name shown for a table source: a named table's name, a derived
/// table's alias, nothing for a join tree.
pub open spec fn table_ref_label(tr: TableReference) -> Seq<char> {
    match tr {
        TableReference::Table { name, .. } => name.name@,
        TableReference::Subquery { alias, .. } => match alias {
            Some(a) => a.name@,
            None => Seq::empty(),
        },
        TableReference::Joined { .. } => Seq::empty(),
    }
}

/// The outline entry of a statement, with ranges from line starts `li`:
/// definitions of tables, procedures, views and indexes; declarations
/// (`DECLARE a, b`); SELECT, INSERT, UPDATE and DELETE; nothing for other
/// statements.
pub open spec fn outline_entry(li: Seq<u32>, s: Statement) -> Option<OutlineEntry> {
    let at = |sp: Span| range_at(li, sp.start as int, sp.end as int);
    match s {
        Statement::Create(c) => match *c {
            CreateStatement::Table(d) => Some(OutlineEntry { name: d.name.name@, kind: SymbolKind::Class, range: at(d.span) }),
            CreateStatement::Procedure(d) => Some(OutlineEntry { name: d.name.name@, kind: SymbolKind::Function, range: at(d.span) }),
            CreateStatement::View(d) => Some(OutlineEntry { name: d.name.name@, kind: SymbolKind::Interface, range: at(d.span) }),
            CreateStatement::Index(d) => Some(OutlineEntry { name: d.name.name@, kind: SymbolKind::Property, range: at(d.span) }),
            CreateStatement::Trigger(_) => None,
        },
        Statement::Declare { variables, span } => Some(OutlineEntry {
            name: "DECLARE "@ + join_texts(variables@.map_values(|v: VariableDeclaration| v.name.name@), ", "@),
            kind: SymbolKind::Variable,
            range: at(span),
        }),
        Statement::Select(q) => Some(OutlineEntry { name: "SELECT"@, kind: SymbolKind::Namespace, range: at(q.span) }),
        Statement::Insert { table, span, .. } => Some(OutlineEntry {
            name: "INSERT "@ + table.name@,
            kind: SymbolKind::Namespace,
            range: at(span),
        }),
        Statement::Update { table, span, .. } => Some(OutlineEntry {
            name: "UPDATE "@ + table_ref_label(table),
            kind: SymbolKind::Namespace,
            range: at(span),
        }),
        Statement::Delete { table, span, .. } => Some(OutlineEntry {
            name: "DELETE FROM "@ + table.name@,
            kind: SymbolKind::Namespace,
            range: at(span),
        }),
        _ => None,
    }
}

/// Outline entries of statements, in order.
pub open spec fn outline(li: Seq<u32>, ss: Seq<Statement>) -> Seq<OutlineEntry>
    decreases ss.len(),
{
    if ss.len() == 0 {
        Seq::empty()
    } else {
        outline(li, ss.drop_last()) + match outline_entry(li, ss.last()) {
            Some(e) => seq![e],
            None => Seq::empty(),
        }
    }
}

/// The content of an outline symbol.
pub open spec fn symbol_entry(d: DocumentSymbol) -> OutlineEntry {
    OutlineEntry { name: d.name@, kind: d.kind, range: d.range }
}

fn make_symbol(name: String, kind: SymbolKind, range: Range) -> (d: DocumentSymbol)
    ensures
        symbol_entry(d) == (OutlineEntry { name: name@, kind, range }),
        d.selection_range == range,
{
    DocumentSymbol { name, kind, range, selection_range: range }
}

fn declare_names(vs: &Vec<VariableDeclaration>) -> (r: String)
    ensures
        r@ == join_texts(vs@.map_values(|v: VariableDeclaration| v.name.name@), ", "@),
{
    let ghost names = vs@.map_values(|v: VariableDeclaration| v.name.name@);
    let mut s = String::new();
    let mut i: usize = 0;
    assert(names.take(0) =~= Seq::<Seq<char>>::empty());
    assert(s@ =~= join_texts(names.take(0), ", "@));
    while i < vs.len()
        invariant
            i <= vs@.len(),
            names == vs@.map_values(|v: VariableDeclaration| v.name.name@),
            s@ == join_texts(names.take(i as int), ", "@),
        decreases vs@.len() - i,
    {
        let ghost t = names.take(i + 1);
        assert(t.drop_last() =~= names.take(i as int));
        assert(t.last() == vs@[i as int].name.name@);
        if i > 0 {
            s.append(", ");
        }
        s.append(vs[i].name.name.as_str());
        assert(s@ =~= join_texts(t, ", "@));
        i = i + 1;
    }
    assert(names.take(names.len() as int) =~= names);
    s
}

fn statement_to_symbol(li: &LineIndex, stmt: &Statement) -> (r: Option<DocumentSymbol>)
    ensures
        match r {
            Some(d) => outline_entry(li@, *stmt) == Some(symbol_entry(d)) && d.selection_range == d.range,
            None => outline_entry(li@, *stmt) is None,
        },
{
    match stmt {
        Statement::Create(c) => match &**c {
            CreateStatement::Table(d) => Some(make_symbol(d.name.name.clone(), SymbolKind::Class, li.offset_to_range(d.span.start, d.span.end))),
            CreateStatement::Procedure(d) => Some(make_symbol(d.name.name.clone(), SymbolKind::Function, li.offset_to_range(d.span.start, d.span.end))),
            CreateStatement::View(d) => Some(make_symbol(d.name.name.clone(), SymbolKind::Interface, li.offset_to_range(d.span.start, d.span.end))),
            CreateStatement::Index(d) => Some(make_symbol(d.name.name.clone(), SymbolKind::Property, li.offset_to_range(d.span.start, d.span.end))),
            CreateStatement::Trigger(_) => None,
        },
        Statement::Declare { variables, span } => {
            let mut name = String::from_str("DECLARE ");
            let names = declare_names(variables);
            name.append(names.as_str());
            Some(make_symbol(name, SymbolKind::Variable, li.offset_to_range(span.start, span.end)))
        },
        Statement::Select(q) => Some(make_symbol(String::from_str("SELECT"), SymbolKind::Namespace, li.offset_to_range(q.span.start, q.span.end))),
        Statement::Insert { table, span, .. } => {
            let mut name = String::from_str("INSERT ");
            name.append(table.name.as_str());
            Some(make_symbol(name, SymbolKind::Namespace, li.offset_to_range(span.start, span.end)))
        },
        Statement::Update { table, span, .. } => {
            let mut name = String::from_str("UPDATE ");
            match table {
                TableReference::Table { name: n, .. } => name.append(n.name.as_str()),
                TableReference::Subquery { alias, .. } => match alias {
                    Some(a) => name.append(a.name.as_str()),
                    None => {},
                },
                TableReference::Joined { .. } => {},
            }
            assert(name@ =~= "UPDATE "@ + table_ref_label(*table));
            Some(make_symbol(name, SymbolKind::Namespace, li.offset_to_range(span.start, span.end)))
        },
        Statement::Delete { table, span, .. } => {
            let mut name = String::from_str("DELETE FROM ");
            name.append(table.name.as_str());
            Some(make_symbol(name, SymbolKind::Namespace, li.offset_to_range(span.start, span.end)))
        },
        _ => None,
    }
}

/// The outline of a parsed document: one symbol per statement that has an
/// outline entry, in order; `None` when there is none.
pub fn document_symbols(source: &str, statements: &Vec<Statement>) -> (r: Option<Vec<DocumentSymbol>>)
    requires
        source.spec_bytes().len() <= u32::MAX,
    ensures
        ({
            let o = outline(line_starts(source.spec_bytes()), statements@);
            &&& o.len() == 0 ==> r is None
            &&& o.len() > 0 ==> (r matches Some(v) && v@.map_values(|d: DocumentSymbol| symbol_entry(d)) == o)
        }),
{
    let li = LineIndex::new(source);
    let mut symbols: Vec<DocumentSymbol> = Vec::new();
    let mut i: usize = 0;
    assert(statements@.take(0) =~= Seq::<Statement>::empty());
    assert(symbols@.map_values(|d: DocumentSymbol| symbol_entry(d)) =~= outline(li@, statements@.take(0)));
    while i < statements.len()
        invariant
            i <= statements@.len(),
            symbols@.map_values(|d: DocumentSymbol| symbol_entry(d)) == outline(li@, statements@.take(i as int)),
        decreases statements@.len() - i,
    {
        assert(statements@.take(i + 1).drop_last() =~= statements@.take(i as int));
        let ghost before = symbols@;
        match statement_to_symbol(&li, &statements[i]) {
            Some(d) => {
                symbols.push(d);
                assert(symbols@.map_values(|d: DocumentSymbol| symbol_entry(d)) =~= before.map_values(
                    |d: DocumentSymbol| symbol_entry(d),
                ).push(symbol_entry(symbols@.last())));
            },
            None => {},
        }
        assert(symbols@.map_values(|d: DocumentSymbol| symbol_entry(d)) =~= outline(li@, statements@.take(i + 1)));
        i = i + 1;
    }
    assert(statements@.take(statements@.len() as int) =~= statements@);
    if symbols.len() == 0 {
        None
    } else {
        Some(symbols)
    }
}

} // verus!
