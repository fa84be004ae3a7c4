//! Code actions: expand `SELECT *` into the table's columns, generate an
//! INSERT skeleton, add a column list to `INSERT ... VALUES`, and wrap a
//! BEGIN ... END block in TRY ... CATCH.

use crate::analysis::{lemma_next_line_feed, lemma_no_line_after, line_start_char, line_text, next_lf, next_line_feed, DocumentAnalysis};
use crate::ast::{BlockStatement, CreateStatement, InsertSource, SelectItem, SelectStatement, Statement, TableReference, stmt_span};
use crate::formatting::TextEdit;
use crate::hover::join_texts;
use crate::line_index::{position_at, position_offset, range_at, LineIndex};
use crate::position::{Position, Range};
use crate::rename::{TextEditView, WorkspaceEdit};
use crate::symbol_table::{to_uppercase, uppercase, value_of, ColumnModel, SymbolTable, SymbolTableBuilder, TableModel, TableSymbol};
use crate::text::{chars_eq_ignore_ascii, chars_of, char_is_whitespace, eq_ignore_ascii, has_sub, has_sub_in, is_ws, str_eq, string_of, trim_end, trim_end_len};
use crate::token::{Span, OwnedToken, TokenKind};
use vstd::prelude::*;
use vstd::string::*;
use vstd::utf8::*;

verus! {

/// Kind of a code action.
#[derive(Debug, Clone, Copy, PartialEq, Eq, Structural)]
pub enum CodeActionKind {
    /// A quick fix.
    QuickFix,
    /// A refactoring.
    Refactor,
}

/// A code action: a title and one edit of one document.
pub struct CodeAction {
    /// Title shown.
    pub title: String,
    /// Kind.
    pub kind: CodeActionKind,
    /// The edit.
    pub edit: WorkspaceEdit,
    /// Whether the action is the preferred one (set for quick fixes).
    pub is_preferred: Option<bool>,
}

/// Content of a [`CodeAction`] with a single edit.
pub struct ActionView {
    /// Title shown.
    pub title: Seq<char>,
    /// Kind.
    pub kind: CodeActionKind,
    /// Document edited.
    pub uri: Seq<char>,
    /// Range replaced.
    pub range: Range,
    /// Replacement text.
    pub new_text: Seq<char>,
}

/// The action holds exactly the content `v`: one edit of one document, and
/// the preferred mark for quick fixes.
pub open spec fn action_is(a: CodeAction, v: ActionView) -> bool {
    &&& a.title@ == v.title
    &&& a.kind == v.kind
    &&& a.edit.changes@.len() == 1
    &&& a.edit.changes@[0].0@ == v.uri
    &&& a.edit.changes@[0].1@.len() == 1
    &&& a.edit.changes@[0].1@[0]@ == (TextEditView { range: v.range, new_text: v.new_text })
    &&& a.is_preferred == (if v.kind == CodeActionKind::QuickFix { Some(true) } else { None::<bool> })
}

fn make_action(title: String, kind: CodeActionKind, uri: &String, range: Range, new_text: String) -> (a: CodeAction)
    ensures
        action_is(a, ActionView { title: title@, kind, uri: uri@, range, new_text: new_text@ }),
{
    let mut edits: Vec<TextEdit> = Vec::new();
    edits.push(TextEdit { range, new_text });
    let mut changes: Vec<(String, Vec<TextEdit>)> = Vec::new();
    changes.push((uri.clone(), edits));
    let is_preferred = match kind {
        CodeActionKind::QuickFix => Some(true),
        CodeActionKind::Refactor => None,
    };
    CodeAction { title, kind, edit: WorkspaceEdit { changes }, is_preferred }
}

/// Whether a SELECT list holds `*`.
pub open spec fn has_wildcard(items: Seq<SelectItem>) -> bool {
    exists|i: int| 0 <= i < items.len() && (#[trigger] items[i]) matches SelectItem::Wildcard
}

/// Where the statement after statement `idx` starts (the text length when it
/// starts at zero or there is none): the last offset a cursor may have to
/// belong to statement `idx`.
pub open spec fn upper_bound(stmts: Seq<Statement>, idx: int, len: int) -> int {
    if idx + 1 < stmts.len() {
        let s = stmt_span(stmts[idx + 1]).start;
        if s == 0 { len } else { s as int }
    } else {
        len
    }
}

/// A SELECT with `*` and at least one table source, starting at or before
/// `offset`, with the cursor before the next statement.
pub open spec fn select_star_candidate(stmts: Seq<Statement>, idx: int, offset: int, len: int) -> bool {
    match stmts[idx] {
        Statement::Select(q) => has_wildcard(q.columns@) && (q.from matches Some(f) && f.tables@.len() > 0)
            && q.span.start as int <= offset && offset <= upper_bound(stmts, idx, len),
        _ => false,
    }
}

/// Index of the first SELECT * candidate among the first `n` statements.
pub open spec fn first_select_star(stmts: Seq<Statement>, n: int, offset: int, len: int) -> Option<int>
    decreases n,
{
    if n <= 0 {
        None
    } else {
        match first_select_star(stmts, n - 1, offset, len) {
            Some(i) => Some(i),
            None => if select_star_candidate(stmts, n - 1, offset, len) { Some(n - 1) } else { None },
        }
    }
}

/// An INSERT starting at or before `offset`, with the cursor before the
/// next statement.
pub open spec fn insert_candidate(stmts: Seq<Statement>, idx: int, offset: int, len: int) -> bool {
    match stmts[idx] {
        Statement::Insert { span, .. } => span.start as int <= offset && offset <= upper_bound(stmts, idx, len),
        _ => false,
    }
}

/// Index of the first INSERT candidate among the first `n` statements.
pub open spec fn first_insert(stmts: Seq<Statement>, n: int, offset: int, len: int) -> Option<int>
    decreases n,
{
    if n <= 0 {
        None
    } else {
        match first_insert(stmts, n - 1, offset, len) {
            Some(i) => Some(i),
            None => if insert_candidate(stmts, n - 1, offset, len) { Some(n - 1) } else { None },
        }
    }
}

fn upper_of(stmts: &Vec<Statement>, idx: usize, len: usize) -> (r: usize)
    requires
        idx < stmts@.len(),
    ensures
        r == upper_bound(stmts@, idx as int, len as int),
{
    if idx < stmts.len() - 1 {
        let s = stmts[idx + 1].span().start;
        if s == 0 { len } else { s as usize }
    } else {
        len
    }
}

fn wildcard_in(items: &Vec<SelectItem>) -> (r: bool)
    ensures
        r == has_wildcard(items@),
{
    let mut i: usize = 0;
    while i < items.len()
        invariant
            i <= items@.len(),
            forall|k: int| 0 <= k < i ==> !((#[trigger] items@[k]) matches SelectItem::Wildcard),
        decreases items@.len() - i,
    {
        if matches!(items[i], SelectItem::Wildcard) {
            return true;
        }
        i = i + 1;
    }
    false
}

fn find_select_star_index(stmts: &Vec<Statement>, offset: usize, len: usize) -> (r: Option<usize>)
    ensures
        match r {
            Some(i) => i < stmts@.len() && first_select_star(stmts@, stmts@.len() as int, offset as int, len as int) == Some(i as int),
            None => first_select_star(stmts@, stmts@.len() as int, offset as int, len as int) is None,
        },
{
    let mut i: usize = 0;
    while i < stmts.len()
        invariant
            i <= stmts@.len(),
            first_select_star(stmts@, i as int, offset as int, len as int) is None,
        decreases stmts@.len() - i,
    {
        let hit = match &stmts[i] {
            Statement::Select(q) => {
                let has_from = match &q.from {
                    Some(f) => f.tables.len() > 0,
                    None => false,
                };
                wildcard_in(&q.columns) && has_from && q.span.start as usize <= offset && offset <= upper_of(stmts, i, len)
            },
            _ => false,
        };
        if hit {
            proof {
                lemma_first_select_star_stable(stmts@, i as int + 1, stmts@.len() as int, offset as int, len as int);
            }
            return Some(i);
        }
        i = i + 1;
    }
    None
}

proof fn lemma_first_select_star_stable(stmts: Seq<Statement>, n: int, m: int, offset: int, len: int)
    requires
        0 <= n <= m,
        first_select_star(stmts, n, offset, len) is Some,
    ensures
        first_select_star(stmts, m, offset, len) == first_select_star(stmts, n, offset, len),
    decreases m - n,
{
    if n < m {
        lemma_first_select_star_stable(stmts, n, m - 1, offset, len);
    }
}

proof fn lemma_first_select_star(stmts: Seq<Statement>, n: int, offset: int, len: int)
    requires
        0 <= n <= stmts.len(),
    ensures
        first_select_star(stmts, n, offset, len) matches Some(i) ==> 0 <= i < n && select_star_candidate(stmts, i, offset, len),
    decreases n,
{
    if n > 0 {
        lemma_first_select_star(stmts, n - 1, offset, len);
    }
}

fn find_insert_index(stmts: &Vec<Statement>, offset: usize, len: usize) -> (r: Option<usize>)
    ensures
        match r {
            Some(i) => i < stmts@.len() && first_insert(stmts@, stmts@.len() as int, offset as int, len as int) == Some(i as int),
            None => first_insert(stmts@, stmts@.len() as int, offset as int, len as int) is None,
        },
{
    let mut i: usize = 0;
    while i < stmts.len()
        invariant
            i <= stmts@.len(),
            first_insert(stmts@, i as int, offset as int, len as int) is None,
        decreases stmts@.len() - i,
    {
        let hit = match &stmts[i] {
            Statement::Insert { span, .. } => span.start as usize <= offset && offset <= upper_of(stmts, i, len),
            _ => false,
        };
        if hit {
            proof {
                lemma_first_insert_stable(stmts@, i as int + 1, stmts@.len() as int, offset as int, len as int);
            }
            return Some(i);
        }
        i = i + 1;
    }
    None
}

proof fn lemma_first_insert_stable(stmts: Seq<Statement>, n: int, m: int, offset: int, len: int)
    requires
        0 <= n <= m,
        first_insert(stmts, n, offset, len) is Some,
    ensures
        first_insert(stmts, m, offset, len) == first_insert(stmts, n, offset, len),
    decreases m - n,
{
    if n < m {
        lemma_first_insert_stable(stmts, n, m - 1, offset, len);
    }
}

/// Names of the columns of a table, in order.
pub open spec fn column_names(cs: Seq<ColumnModel>) -> Seq<Seq<char>> {
    cs.map_values(|c: ColumnModel| c.name)
}

/// Names of the columns that are not IDENTITY columns, in order.
pub open spec fn insertable_names(cs: Seq<ColumnModel>) -> Seq<Seq<char>> {
    column_names(cs.filter(|c: ColumnModel| !c.is_identity))
}

/// `n` question marks joined with `, `.
pub open spec fn placeholders_text(n: nat) -> Seq<char> {
    join_texts(Seq::new(n, |i: int| "?"@), ", "@)
}

/// The INSERT skeleton for a table: listed columns and one placeholder per
/// column.
pub open spec fn insert_skeleton(table: Seq<char>, cols: Seq<Seq<char>>) -> Seq<char> {
    "INSERT INTO "@ + table + " ("@ + join_texts(cols, ", "@) + ") VALUES ("@ + placeholders_text(cols.len())
        + ")"@
}

proof fn lemma_filter_push<T>(s: Seq<T>, x: T, f: spec_fn(T) -> bool)
    ensures
        s.push(x).filter(f) == if f(x) { s.filter(f).push(x) } else { s.filter(f) },
{
    reveal(Seq::filter);
    assert(s.push(x).drop_last() =~= s);
}

fn push_joined_texts(s: &mut String, v: &Vec<String>)
    ensures
        final(s)@ == old(s)@ + join_texts(v@.map_values(|x: String| x@), ", "@),
{
    let ghost s0 = s@;
    let ghost names = v@.map_values(|x: String| x@);
    let mut i: usize = 0;
    assert(names.take(0) =~= Seq::<Seq<char>>::empty());
    assert(s@ =~= s0 + join_texts(names.take(0), ", "@));
    while i < v.len()
        invariant
            i <= v@.len(),
            names == v@.map_values(|x: String| x@),
            s@ == s0 + join_texts(names.take(i as int), ", "@),
        decreases v@.len() - i,
    {
        let ghost t = names.take(i + 1);
        assert(t.drop_last() =~= names.take(i as int));
        assert(t.last() == v@[i as int]@);
        if i > 0 {
            s.append(", ");
        }
        s.append(v[i].as_str());
        assert(s@ =~= s0 + join_texts(t, ", "@));
        i = i + 1;
    }
    assert(names.take(names.len() as int) =~= names);
}

fn push_placeholders(s: &mut String, n: usize)
    ensures
        final(s)@ == old(s)@ + placeholders_text(n as nat),
{
    let ghost s0 = s@;
    let mut i: usize = 0;
    assert(Seq::new(0nat, |k: int| "?"@) =~= Seq::<Seq<char>>::empty());
    assert(s@ =~= s0 + placeholders_text(0));
    while i < n
        invariant
            i <= n,
            s@ == s0 + placeholders_text(i as nat),
        decreases n - i,
    {
        assert(Seq::new((i + 1) as nat, |k: int| "?"@).drop_last() =~= Seq::new(i as nat, |k: int| "?"@));
        if i > 0 {
            s.append(", ");
        }
        s.append("?");
        assert(s@ =~= s0 + placeholders_text((i + 1) as nat));
        i = i + 1;
    }
}

fn all_column_names(t: &TableSymbol) -> (r: Vec<String>)
    ensures
        r@.map_values(|x: String| x@) == column_names(t@.columns),
{
    let mut r: Vec<String> = Vec::new();
    let mut i: usize = 0;
    while i < t.columns.len()
        invariant
            i <= t.columns@.len(),
            r@.len() == i,
            forall|k: int| 0 <= k < i ==> (#[trigger] r@[k])@ == t.columns@[k].name@,
        decreases t.columns@.len() - i,
    {
        r.push(t.columns[i].name.clone());
        i = i + 1;
    }
    assert(r@.map_values(|x: String| x@) =~= column_names(t@.columns));
    r
}

fn insertable_column_names(t: &TableSymbol) -> (r: Vec<String>)
    ensures
        r@.map_values(|x: String| x@) == insertable_names(t@.columns),
{
    let ghost cs = t@.columns;
    let ghost f = |c: ColumnModel| !c.is_identity;
    let mut r: Vec<String> = Vec::new();
    let mut i: usize = 0;
    assert(cs.take(0) =~= Seq::<ColumnModel>::empty());
    assert(cs.take(0).filter(f) =~= Seq::<ColumnModel>::empty()) by {
        reveal(Seq::filter);
    }
    assert(r@.map_values(|x: String| x@) =~= column_names(cs.take(0).filter(f)));
    while i < t.columns.len()
        invariant
            i <= t.columns@.len(),
            cs == t@.columns,
            f == (|c: ColumnModel| !c.is_identity),
            r@.map_values(|x: String| x@) == column_names(cs.take(i as int).filter(f)),
        decreases t.columns@.len() - i,
    {
        let c = &t.columns[i];
        assert(cs.take(i + 1) =~= cs.take(i as int).push(c@));
        proof {
            lemma_filter_push(cs.take(i as int), c@, f);
        }
        let ghost before = r@;
        if !c.is_identity {
            r.push(c.name.clone());
            assert(r@.map_values(|x: String| x@) =~= before.map_values(|x: String| x@).push(c.name@));
        }
        assert(r@.map_values(|x: String| x@) =~= column_names(cs.take(i + 1).filter(f)));
        i = i + 1;
    }
    assert(cs.take(cs.len() as int) =~= cs);
    r
}

fn skeleton_text(table: &str, cols: &Vec<String>) -> (r: String)
    ensures
        r@ == insert_skeleton(table@, cols@.map_values(|x: String| x@)),
{
    let mut s = String::from_str("INSERT INTO ");
    s.append(table);
    s.append(" (");
    push_joined_texts(&mut s, cols);
    s.append(") VALUES (");
    push_placeholders(&mut s, cols.len());
    s.append(")");
    assert(s@ =~= insert_skeleton(table@, cols@.map_values(|x: String| x@)));
    s
}

/// Index of the first `*` token starting at or after `s`.
pub open spec fn first_star_from(ts: Seq<OwnedToken>, s: int) -> Option<int>
    decreases ts.len(),
{
    if ts.len() == 0 {
        None
    } else {
        match first_star_from(ts.drop_last(), s) {
            Some(i) => Some(i),
            None => if ts.last().kind == TokenKind::Star && ts.last().span.start as int >= s {
                Some(ts.len() - 1)
            } else {
                None
            },
        }
    }
}

proof fn lemma_first_star_prefix(ts: Seq<OwnedToken>, n: int, s: int)
    requires
        0 <= n <= ts.len(),
        first_star_from(ts.take(n), s) is Some,
    ensures
        first_star_from(ts, s) == first_star_from(ts.take(n), s),
    decreases ts.len() - n,
{
    if n < ts.len() {
        assert(ts.take(n + 1).drop_last() =~= ts.take(n));
        lemma_first_star_prefix(ts, n + 1, s);
    } else {
        assert(ts.take(n) =~= ts);
    }
}

fn find_star_from(tokens: &Vec<OwnedToken>, s: usize) -> (r: Option<usize>)
    ensures
        match r {
            Some(i) => i < tokens@.len() && first_star_from(tokens@, s as int) == Some(i as int),
            None => first_star_from(tokens@, s as int) is None,
        },
{
    let mut i: usize = 0;
    assert(tokens@.take(0) =~= Seq::<OwnedToken>::empty());
    while i < tokens.len()
        invariant
            i <= tokens@.len(),
            first_star_from(tokens@.take(i as int), s as int) is None,
        decreases tokens@.len() - i,
    {
        assert(tokens@.take(i + 1).drop_last() =~= tokens@.take(i as int));
        if matches!(tokens[i].kind, TokenKind::Star) && tokens[i].span.start as usize >= s {
            proof {
                lemma_first_star_prefix(tokens@, i + 1, s as int);
            }
            return Some(i);
        }
        i = i + 1;
    }
    assert(tokens@.take(tokens@.len() as int) =~= tokens@);
    None
}

/// The `SELECT *` expansion at an offset: for the first SELECT * around the
/// cursor whose first table source is a named table with columns, replace
/// the first `*` token at or after the SELECT with the column names,
/// separated by `, `.
pub open spec fn expand_action(a: &DocumentAnalysis, offset: int, uri: Seq<char>) -> Option<ActionView> {
    let stmts = a.statements@;
    match first_select_star(stmts, stmts.len() as int, offset, encode_utf8(a.source@).len() as int) {
        Some(i) => match stmts[i] {
            Statement::Select(q) => match q.from {
                Some(f) => match f.tables@[0] {
                    TableReference::Table { name, .. } => match value_of(a.symbol_table.tables@, uppercase(name.name@)) {
                        Some(t) => if t@.columns.len() == 0 {
                            None
                        } else {
                            match first_star_from(a.tokens@, q.span.start as int) {
                                Some(k) => Some(ActionView {
                                    title: "Expand SELECT * with columns from "@ + name.name@,
                                    kind: CodeActionKind::QuickFix,
                                    uri,
                                    range: range_at(a.line_index@, a.tokens@[k].span.start as int, a.tokens@[k].span.end as int),
                                    new_text: join_texts(column_names(t@.columns), ", "@),
                                }),
                                None => None,
                            }
                        },
                        None => None,
                    },
                    _ => None,
                },
                None => None,
            },
            _ => None,
        },
        None => None,
    }
}

/// The `SELECT *` expansion at a position (see [`expand_action`]).
pub fn try_expand_select_star_ast(analysis: &DocumentAnalysis, position: Position, uri: &String) -> (r: Option<CodeAction>)
    requires
        analysis.index_matches(),
    ensures
        match expand_action(analysis, position_offset(analysis.line_index@, encode_utf8(analysis.source@), position), uri@) {
            Some(v) => r matches Some(act) && action_is(act, v),
            None => r is None,
        },
{
    let offset = analysis.line_index.position_to_offset(analysis.source.as_str(), position);
    let len = analysis.source.as_str().as_bytes().len();
    let i = match find_select_star_index(&analysis.statements, offset, len) {
        Some(i) => i,
        None => return None,
    };
    proof {
        lemma_first_select_star(analysis.statements@, analysis.statements@.len() as int, offset as int, len as int);
    }
    let q = match &analysis.statements[i] {
        Statement::Select(q) => q,
        _ => return None,
    };
    let f = match &q.from {
        Some(f) => f,
        None => return None,
    };
    if f.tables.len() == 0 {
        return None;
    }
    let name = match &f.tables[0] {
        TableReference::Table { name, .. } => name,
        _ => return None,
    };
    let tbl = match SymbolTableBuilder::find_table(&analysis.symbol_table, name.name.as_str()) {
        Some(t) => t,
        None => return None,
    };
    if tbl.columns.len() == 0 {
        return None;
    }
    let k = match find_star_from(&analysis.tokens, q.span.start as usize) {
        Some(k) => k,
        None => return None,
    };
    let cols = all_column_names(tbl);
    let mut text = String::new();
    push_joined_texts(&mut text, &cols);
    let mut title = String::from_str("Expand SELECT * with columns from ");
    title.append(name.name.as_str());
    let star = &analysis.tokens[k];
    Some(make_action(
        title,
        CodeActionKind::QuickFix,
        uri,
        analysis.line_index.offset_to_range(star.span.start, star.span.end),
        text,
    ))
}

/// The INSERT skeleton at an offset: for the first INSERT around the cursor
/// without rows and without a SELECT, whose table has columns, replace the
/// statement with an INSERT listing the columns that are not IDENTITY
/// columns and one placeholder each.
pub open spec fn skeleton_action(a: &DocumentAnalysis, offset: int, uri: Seq<char>) -> Option<ActionView> {
    let stmts = a.statements@;
    match first_insert(stmts, stmts.len() as int, offset, encode_utf8(a.source@).len() as int) {
        Some(i) => match stmts[i] {
            Statement::Insert { table, source, span, .. } => {
                let blocked = match source {
                    InsertSource::Values(v) => v@.len() > 0,
                    InsertSource::Select(_) => true,
                    InsertSource::DefaultValues => false,
                };
                if blocked {
                    None
                } else {
                    match value_of(a.symbol_table.tables@, uppercase(table.name@)) {
                        Some(t) => if t@.columns.len() == 0 {
                            None
                        } else {
                            Some(ActionView {
                                title: "Generate INSERT skeleton for "@ + table.name@,
                                kind: CodeActionKind::QuickFix,
                                uri,
                                range: range_at(a.line_index@, span.start as int, span.end as int),
                                new_text: insert_skeleton(table.name@, insertable_names(t@.columns)),
                            })
                        },
                        None => None,
                    }
                }
            },
            _ => None,
        },
        None => None,
    }
}

/// The INSERT skeleton at a position (see [`skeleton_action`]).
pub fn try_generate_insert_skeleton_ast(analysis: &DocumentAnalysis, position: Position, uri: &String) -> (r: Option<CodeAction>)
    requires
        analysis.index_matches(),
    ensures
        match skeleton_action(analysis, position_offset(analysis.line_index@, encode_utf8(analysis.source@), position), uri@) {
            Some(v) => r matches Some(act) && action_is(act, v),
            None => r is None,
        },
{
    let offset = analysis.line_index.position_to_offset(analysis.source.as_str(), position);
    let len = analysis.source.as_str().as_bytes().len();
    let i = match find_insert_index(&analysis.statements, offset, len) {
        Some(i) => i,
        None => return None,
    };
    let (table, span) = match &analysis.statements[i] {
        Statement::Insert { table, source, span, .. } => {
            let blocked = match source {
                InsertSource::Values(v) => v.len() > 0,
                InsertSource::Select(_) => true,
                InsertSource::DefaultValues => false,
            };
            if blocked {
                return None;
            }
            (table, span)
        },
        _ => return None,
    };
    let tbl = match SymbolTableBuilder::find_table(&analysis.symbol_table, table.name.as_str()) {
        Some(t) => t,
        None => return None,
    };
    if tbl.columns.len() == 0 {
        return None;
    }
    let cols = insertable_column_names(tbl);
    let text = skeleton_text(table.name.as_str(), &cols);
    let mut title = String::from_str("Generate INSERT skeleton for ");
    title.append(table.name.as_str());
    Some(make_action(
        title,
        CodeActionKind::QuickFix,
        uri,
        analysis.line_index.offset_to_range(span.start, span.end),
        text,
    ))
}

/// Index of the first token ending after `s`.
pub open spec fn first_end_after(ts: Seq<OwnedToken>, s: u32) -> int
    decreases ts.len(),
{
    if ts.len() == 0 {
        0
    } else {
        let k = first_end_after(ts.drop_last(), s);
        if k == ts.len() - 1 && ts.last().span.end <= s {
            ts.len() as int
        } else {
            k
        }
    }
}

proof fn lemma_first_end_after(ts: Seq<OwnedToken>, s: u32)
    ensures
        0 <= first_end_after(ts, s) <= ts.len(),
        forall|i: int| 0 <= i < first_end_after(ts, s) ==> ts[i].span.end <= s,
        first_end_after(ts, s) < ts.len() ==> ts[first_end_after(ts, s)].span.end > s,
    decreases ts.len(),
{
    if ts.len() > 0 {
        let p = ts.drop_last();
        lemma_first_end_after(p, s);
        let k = first_end_after(p, s);
        if k < p.len() {
            assert(ts[k] == p[k]);
        }
        assert forall|i: int| 0 <= i < first_end_after(ts, s) && i < p.len() implies ts[i].span.end <= s by {
            assert(ts[i] == p[i]);
        }
    }
}

fn skip_ended(tokens: &Vec<OwnedToken>, s: u32) -> (r: usize)
    ensures
        r == first_end_after(tokens@, s),
        r <= tokens@.len(),
{
    proof {
        lemma_first_end_after(tokens@, s);
    }
    let mut i: usize = 0;
    while i < tokens.len() && tokens[i].span.end <= s
        invariant
            i <= tokens@.len(),
            forall|k: int| 0 <= k < i ==> tokens@[k].span.end <= s,
            0 <= first_end_after(tokens@, s) <= tokens@.len(),
            first_end_after(tokens@, s) < tokens@.len() ==> tokens@[first_end_after(tokens@, s)].span.end > s,
        decreases tokens@.len() - i,
    {
        i = i + 1;
    }
    proof {
        let c = first_end_after(tokens@, s);
        if c < i {
            assert(tokens@[c].span.end <= s);
        } else if c > i {
            assert(tokens@[i as int].span.end <= s);
        }
    }
    i
}

/// Index of the first `;` at or after token `k`.
pub open spec fn semicolon_from(ts: Seq<OwnedToken>, k: int) -> Option<int>
    decreases ts.len() - k,
{
    if k < 0 || k >= ts.len() {
        None
    } else if ts[k].kind == TokenKind::Semicolon {
        Some(k)
    } else {
        semicolon_from(ts, k + 1)
    }
}

/// End of an INSERT: its span's end when sound; else the end of the first
/// `;` among the tokens not ended before the statement; else the end of the
/// last token; else 100 bytes past its start (wrapping).
pub open spec fn insert_end(sp: Span, ts: Seq<OwnedToken>) -> u32 {
    if sp.end > sp.start {
        sp.end
    } else {
        match semicolon_from(ts, first_end_after(ts, sp.start)) {
            Some(k) => ts[k].span.end,
            None => if ts.len() > 0 { ts.last().span.end } else { (sp.start + 100) as u32 },
        }
    }
}

/// The end offset of an INSERT statement (see [`insert_end`]).
pub fn resolve_insert_stmt_end(span: Span, tokens: &Vec<OwnedToken>) -> (r: u32)
    ensures
        r == insert_end(span, tokens@),
{
    if span.end > span.start {
        return span.end;
    }
    let start = skip_ended(tokens, span.start);
    let mut k = start;
    while k < tokens.len()
        invariant
            start <= k <= tokens@.len(),
            start == first_end_after(tokens@, span.start),
            span.end <= span.start,
            semicolon_from(tokens@, start as int) == semicolon_from(tokens@, k as int),
        decreases tokens@.len() - k,
    {
        if matches!(tokens[k].kind, TokenKind::Semicolon) {
            return tokens[k].span.end;
        }
        k = k + 1;
    }
    let n = tokens.len();
    if n > 0 {
        tokens[n - 1].span.end
    } else {
        #[verifier::truncate] ((span.start as u64 + 100) as u32)
    }
}

/// Start of the first VALUES token among the tokens not ended before
/// `lo`, looking no further than a token starting after `hi`.
pub open spec fn values_from(ts: Seq<OwnedToken>, k: int, hi: u32) -> Option<u32>
    decreases ts.len() - k,
{
    if k < 0 || k >= ts.len() || ts[k].span.start > hi {
        None
    } else if ts[k].kind == TokenKind::Values {
        Some(ts[k].span.start)
    } else {
        values_from(ts, k + 1, hi)
    }
}

/// Start of the VALUES token of the INSERT between `insert_start` and
/// `insert_end` (see [`values_from`]).
pub fn find_values_token_start(tokens: &Vec<OwnedToken>, insert_start: u32, insert_end: u32) -> (r: Option<u32>)
    ensures
        r == values_from(tokens@, first_end_after(tokens@, insert_start), insert_end),
{
    let start = skip_ended(tokens, insert_start);
    let mut k = start;
    while k < tokens.len()
        invariant
            start <= k <= tokens@.len(),
            start == first_end_after(tokens@, insert_start),
            values_from(tokens@, start as int, insert_end) == values_from(tokens@, k as int, insert_end),
        decreases tokens@.len() - k,
    {
        if tokens[k].span.start > insert_end {
            return None;
        }
        if matches!(tokens[k].kind, TokenKind::Values) {
            return Some(tokens[k].span.start);
        }
        k = k + 1;
    }
    None
}

/// The column-list action for a statement at an offset: for an INSERT
/// around the cursor (its span, or its resolved end) with no column list and
/// VALUES rows, whose table has columns that are not IDENTITY columns,
/// insert `(columns) ` right before its VALUES token; nested statements are
/// searched in order.
pub open spec fn column_list_in(a: &DocumentAnalysis, s: Statement, offset: int, uri: Seq<char>) -> Option<ActionView>
    decreases s,
{
    match s {
        Statement::Insert { table, columns, source, span } => {
            let end = insert_end(span, a.tokens@);
            if offset < span.start || offset > end || columns@.len() > 0 || !(source is Values) {
                None
            } else {
                match value_of(a.symbol_table.tables@, uppercase(table.name@)) {
                    Some(t) => {
                        let cols = insertable_names(t@.columns);
                        if t@.columns.len() == 0 || cols.len() == 0 {
                            None
                        } else {
                            match values_from(a.tokens@, first_end_after(a.tokens@, span.start), end) {
                                Some(v) => {
                                    let p = position_at(a.line_index@, v as int);
                                    Some(ActionView {
                                        title: "Add column list to INSERT for "@ + table.name@,
                                        kind: CodeActionKind::QuickFix,
                                        uri,
                                        range: Range { start: p, end: p },
                                        new_text: "("@ + join_texts(cols, ", "@) + ") "@,
                                    })
                                },
                                None => None,
                            }
                        }
                    },
                    None => None,
                }
            }
        },
        Statement::Block(b) => column_list_in_all(a, b.statements@, offset, uri),
        Statement::If { then_branch, else_branch, .. } => match column_list_in(a, *then_branch, offset, uri) {
            Some(v) => Some(v),
            None => match else_branch {
                Some(e) => column_list_in(a, *e, offset, uri),
                None => None,
            },
        },
        Statement::While { body, .. } => column_list_in(a, *body, offset, uri),
        Statement::Create(c) => match *c {
            CreateStatement::Procedure(pd) => column_list_in_all(a, pd.body@, offset, uri),
            CreateStatement::Trigger(tr) => column_list_in_all(a, tr.body@, offset, uri),
            _ => None,
        },
        Statement::TryCatch { try_block, catch_block, .. } => match column_list_in_all(a, try_block.statements@, offset, uri) {
            Some(v) => Some(v),
            None => column_list_in_all(a, catch_block.statements@, offset, uri),
        },
        _ => None,
    }
}

/// The first column-list action found in statements.
pub open spec fn column_list_in_all(a: &DocumentAnalysis, ss: Seq<Statement>, offset: int, uri: Seq<char>) -> Option<ActionView>
    decreases ss,
{
    if ss.len() == 0 {
        None
    } else {
        match column_list_in_all(a, ss.drop_last(), offset, uri) {
            Some(v) => Some(v),
            None => column_list_in(a, ss.last(), offset, uri),
        }
    }
}

proof fn lemma_column_list_prefix(a: &DocumentAnalysis, s: Seq<Statement>, n: int, offset: int, uri: Seq<char>)
    requires
        0 <= n <= s.len(),
        column_list_in_all(a, s.take(n), offset, uri) is Some,
    ensures
        column_list_in_all(a, s, offset, uri) == column_list_in_all(a, s.take(n), offset, uri),
    decreases s.len() - n,
{
    if n < s.len() {
        assert(s.take(n + 1).drop_last() =~= s.take(n));
        lemma_column_list_prefix(a, s, n + 1, offset, uri);
    } else {
        assert(s.take(n) =~= s);
    }
}

fn try_add_insert_columns_in_stmt(stmt: &Statement, analysis: &DocumentAnalysis, cursor: usize, uri: &String) -> (r: Option<CodeAction>)
    ensures
        match column_list_in(analysis, *stmt, cursor as int, uri@) {
            Some(v) => r matches Some(act) && action_is(act, v),
            None => r is None,
        },
    decreases stmt,
{
    match stmt {
        Statement::Insert { table, columns, source, span } => {
            let end = resolve_insert_stmt_end(*span, &analysis.tokens);
            if cursor < span.start as usize || cursor > end as usize {
                return None;
            }
            if columns.len() > 0 {
                return None;
            }
            if !matches!(source, InsertSource::Values(_)) {
                return None;
            }
            let tbl = match SymbolTableBuilder::find_table(&analysis.symbol_table, table.name.as_str()) {
                Some(t) => t,
                None => return None,
            };
            if tbl.columns.len() == 0 {
                return None;
            }
            let cols = insertable_column_names(tbl);
            if cols.len() == 0 {
                return None;
            }
            let v = match find_values_token_start(&analysis.tokens, span.start, end) {
                Some(v) => v,
                None => return None,
            };
            let (line, character) = analysis.line_index.offset_to_position(v);
            let p = Position { line, character };
            let mut text = String::from_str("(");
            push_joined_texts(&mut text, &cols);
            text.append(") ");
            let mut title = String::from_str("Add column list to INSERT for ");
            title.append(table.name.as_str());
            Some(make_action(title, CodeActionKind::QuickFix, uri, Range { start: p, end: p }, text))
        },
        Statement::Block(b) => try_add_insert_columns_in_all(&b.statements, analysis, cursor, uri),
        Statement::If { then_branch, else_branch, .. } => {
            match try_add_insert_columns_in_stmt(then_branch, analysis, cursor, uri) {
                Some(a) => Some(a),
                None => match else_branch {
                    Some(e) => try_add_insert_columns_in_stmt(e, analysis, cursor, uri),
                    None => None,
                },
            }
        },
        Statement::While { body, .. } => try_add_insert_columns_in_stmt(body, analysis, cursor, uri),
        Statement::Create(c) => match &**c {
            CreateStatement::Procedure(pd) => try_add_insert_columns_in_all(&pd.body, analysis, cursor, uri),
            CreateStatement::Trigger(tr) => try_add_insert_columns_in_all(&tr.body, analysis, cursor, uri),
            _ => None,
        },
        Statement::TryCatch { try_block, catch_block, .. } => {
            match try_add_insert_columns_in_all(&try_block.statements, analysis, cursor, uri) {
                Some(a) => Some(a),
                None => try_add_insert_columns_in_all(&catch_block.statements, analysis, cursor, uri),
            }
        },
        _ => None,
    }
}

fn try_add_insert_columns_in_all(ss: &Vec<Statement>, analysis: &DocumentAnalysis, cursor: usize, uri: &String) -> (r: Option<CodeAction>)
    ensures
        match column_list_in_all(analysis, ss@, cursor as int, uri@) {
            Some(v) => r matches Some(act) && action_is(act, v),
            None => r is None,
        },
    decreases ss,
{
    let mut i: usize = 0;
    assert(ss@.take(0) =~= Seq::<Statement>::empty());
    while i < ss.len()
        invariant
            i <= ss@.len(),
            column_list_in_all(analysis, ss@.take(i as int), cursor as int, uri@) is None,
        decreases ss@.len() - i,
    {
        assert(ss@.take(i + 1).drop_last() =~= ss@.take(i as int));
        match try_add_insert_columns_in_stmt(&ss[i], analysis, cursor, uri) {
            Some(a) => {
                proof {
                    lemma_column_list_prefix(analysis, ss@, i + 1, cursor as int, uri@);
                }
                return Some(a);
            },
            None => {},
        }
        i = i + 1;
    }
    assert(ss@.take(ss@.len() as int) =~= ss@);
    None
}

/// The column-list action at a position: the first one found in the
/// document's statements.
pub fn try_add_insert_column_list_ast(analysis: &DocumentAnalysis, position: Position, uri: &String) -> (r: Option<CodeAction>)
    requires
        analysis.index_matches(),
    ensures
        match column_list_in_all(
            analysis,
            analysis.statements@,
            position_offset(analysis.line_index@, encode_utf8(analysis.source@), position),
            uri@,
        ) {
            Some(v) => r matches Some(act) && action_is(act, v),
            None => r is None,
        },
{
    let cursor = analysis.line_index.position_to_offset(analysis.source.as_str(), position);
    try_add_insert_columns_in_all(&analysis.statements, analysis, cursor, uri)
}


/// Index of the first character at or after `k` that is not whitespace
/// (or the length of `s`).
pub open spec fn ws_run(s: Seq<char>, k: int) -> int
    decreases s.len() - k,
{
    if 0 <= k < s.len() && is_ws(s[k]) {
        ws_run(s, k + 1)
    } else {
        k
    }
}

/// `s` without leading and trailing whitespace.
pub open spec fn trim(s: Seq<char>) -> Seq<char> {
    trim_end(s.skip(ws_run(s, 0)))
}

/// The leading whitespace of `s`.
pub open spec fn indent_of(s: Seq<char>) -> Seq<char> {
    s.take(ws_run(s, 0))
}

proof fn lemma_ws_run(s: Seq<char>, k: int)
    requires
        0 <= k <= s.len(),
    ensures
        k <= ws_run(s, k) <= s.len(),
        forall|i: int| k <= i < ws_run(s, k) ==> is_ws(s[i]),
    decreases s.len() - k,
{
    if k < s.len() && is_ws(s[k]) {
        lemma_ws_run(s, k + 1);
    }
}

fn leading_ws(cs: &Vec<char>) -> (k: usize)
    ensures
        k == ws_run(cs@, 0),
        k <= cs@.len(),
{
    proof {
        lemma_ws_run(cs@, 0);
    }
    let mut k: usize = 0;
    while k < cs.len() && char_is_whitespace(cs[k])
        invariant
            k <= cs@.len(),
            ws_run(cs@, 0) == ws_run(cs@, k as int),
        decreases cs@.len() - k,
    {
        k = k + 1;
    }
    k
}

fn chars_from(cs: &Vec<char>, k: usize) -> (r: Vec<char>)
    requires
        k <= cs@.len(),
    ensures
        r@ == cs@.skip(k as int),
{
    let mut r: Vec<char> = Vec::new();
    let mut i = k;
    while i < cs.len()
        invariant
            k <= i <= cs@.len(),
            r@ == cs@.subrange(k as int, i as int),
        decreases cs@.len() - i,
    {
        r.push(cs[i]);
        i = i + 1;
    }
    r
}

/// Whether a line, trimmed of whitespace, reads BEGIN (any case).
fn is_begin_line(line: &str) -> (r: bool)
    ensures
        r == eq_ignore_ascii(trim(line@), "BEGIN"@),
{
    let cs = chars_of(line);
    let k = leading_ws(&cs);
    let tail = chars_from(&cs, k);
    let n = trim_end_len(&tail);
    let b = chars_of("BEGIN");
    if n != b.len() {
        return false;
    }
    let r = chars_eq_ignore_ascii(&tail, 0, &b, 0, n);
    proof {
        assert(b@.subrange(0, n as int) =~= b@);
    }
    r
}

/// Scan for the end of a block starting at `start`: tokens before `start`
/// are skipped and the scan stops at a token starting more than 5000 bytes
/// past it; the token covering `start` opens depth 1; after it, tokens
/// reading BEGIN and END in upper case move the depth (saturating at the
/// ends of the `u32` range), and the END that brings it to zero gives its
/// end offset.
pub open spec fn wrap_scan(ts: Seq<OwnedToken>, k: int, start: u32, found: bool, depth: u32) -> Option<int>
    decreases ts.len() - k,
{
    if k < 0 || k >= ts.len() {
        None
    } else {
        let t = ts[k];
        if t.span.start < start {
            wrap_scan(ts, k + 1, start, found, depth)
        } else if t.span.start as int > start as int + 5000 {
            None
        } else if !found {
            if t.span.start <= start && t.span.end > start {
                wrap_scan(ts, k + 1, start, true, 1)
            } else {
                wrap_scan(ts, k + 1, start, false, depth)
            }
        } else if uppercase(t.text@) == "BEGIN"@ {
            wrap_scan(ts, k + 1, start, true, if depth < u32::MAX { (depth + 1) as u32 } else { depth })
        } else if uppercase(t.text@) == "END"@ {
            let d: u32 = if depth > 0 { (depth - 1) as u32 } else { 0 };
            if d == 0 {
                Some(t.span.end as int)
            } else {
                wrap_scan(ts, k + 1, start, true, d)
            }
        } else {
            wrap_scan(ts, k + 1, start, true, depth)
        }
    }
}

fn scan_wrap_end(start: u32, tokens: &Vec<OwnedToken>) -> (r: Option<u32>)
    ensures
        match r {
            Some(e) => wrap_scan(tokens@, 0, start, false, 0) == Some(e as int),
            None => wrap_scan(tokens@, 0, start, false, 0) is None,
        },
{
    let mut depth: u32 = 0;
    let mut found = false;
    let mut k: usize = 0;
    while k < tokens.len()
        invariant
            k <= tokens@.len(),
            wrap_scan(tokens@, 0, start, false, 0) == wrap_scan(tokens@, k as int, start, found, depth),
        decreases tokens@.len() - k,
    {
        let t = &tokens[k];
        if t.span.start < start {
            k = k + 1;
            continue;
        }
        if t.span.start as u64 > start as u64 + 5000 {
            return None;
        }
        if !found {
            if t.span.start <= start && t.span.end > start {
                found = true;
                depth = 1;
            }
            k = k + 1;
            continue;
        }
        let u = to_uppercase(t.text.as_str());
        if str_eq(u.as_str(), "BEGIN") {
            depth = depth.saturating_add(1);
        } else if str_eq(u.as_str(), "END") {
            depth = depth.saturating_sub(1);
            if depth == 0 {
                return Some(t.span.end);
            }
        }
        k = k + 1;
    }
    None
}

/// End of a block for wrapping: its span's end when sound; else the end of
/// its last statement when that span is sound; else the token scan.
pub open spec fn wrap_block_end(ts: Seq<OwnedToken>, b: BlockStatement) -> Option<int> {
    let ss = b.statements@;
    if b.span.end > b.span.start {
        Some(b.span.end as int)
    } else if ss.len() > 0 && stmt_span(ss.last()).end > stmt_span(ss.last()).start {
        Some(stmt_span(ss.last()).end as int)
    } else {
        wrap_scan(ts, 0, b.span.start, false, 0)
    }
}

fn wrap_end_of(b: &BlockStatement, tokens: &Vec<OwnedToken>) -> (r: Option<u32>)
    ensures
        match r {
            Some(e) => wrap_block_end(tokens@, *b) == Some(e as int),
            None => wrap_block_end(tokens@, *b) is None,
        },
{
    if b.span.end > b.span.start {
        return Some(b.span.end);
    }
    let n = b.statements.len();
    if n > 0 {
        let sp = b.statements[n - 1].span();
        if sp.end > sp.start {
            return Some(sp.end);
        }
    }
    scan_wrap_end(b.span.start, tokens)
}

/// The innermost block around `offset` within a statement: a block whose
/// start and resolved end enclose the offset, or the first such block
/// nested in it; nested statements are searched in order.
pub open spec fn block_at(ts: Seq<OwnedToken>, s: Statement, offset: int) -> Option<BlockStatement>
    decreases s,
{
    match s {
        Statement::Block(b) => match wrap_block_end(ts, b) {
            Some(e) => if b.span.start as int <= offset && offset <= e {
                match block_at_all(ts, b.statements@, offset) {
                    Some(inner) => Some(inner),
                    None => Some(b),
                }
            } else {
                None
            },
            None => None,
        },
        Statement::If { then_branch, else_branch, .. } => match block_at(ts, *then_branch, offset) {
            Some(v) => Some(v),
            None => match else_branch {
                Some(e) => block_at(ts, *e, offset),
                None => None,
            },
        },
        Statement::While { body, .. } => block_at(ts, *body, offset),
        Statement::TryCatch { try_block, catch_block, .. } => match block_at_all(ts, try_block.statements@, offset) {
            Some(v) => Some(v),
            None => block_at_all(ts, catch_block.statements@, offset),
        },
        Statement::Create(c) => match *c {
            CreateStatement::Procedure(pd) => block_at_all(ts, pd.body@, offset),
            CreateStatement::Trigger(tr) => block_at_all(ts, tr.body@, offset),
            _ => None,
        },
        _ => None,
    }
}

/// The first block around `offset` found in statements, in order.
pub open spec fn block_at_all(ts: Seq<OwnedToken>, ss: Seq<Statement>, offset: int) -> Option<BlockStatement>
    decreases ss,
{
    if ss.len() == 0 {
        None
    } else {
        match block_at_all(ts, ss.drop_last(), offset) {
            Some(v) => Some(v),
            None => block_at(ts, ss.last(), offset),
        }
    }
}

proof fn lemma_block_at_prefix(ts: Seq<OwnedToken>, s: Seq<Statement>, n: int, offset: int)
    requires
        0 <= n <= s.len(),
        block_at_all(ts, s.take(n), offset) is Some,
    ensures
        block_at_all(ts, s, offset) == block_at_all(ts, s.take(n), offset),
    decreases s.len() - n,
{
    if n < s.len() {
        assert(s.take(n + 1).drop_last() =~= s.take(n));
        lemma_block_at_prefix(ts, s, n + 1, offset);
    } else {
        assert(s.take(n) =~= s);
    }
}

fn find_block_at_offset<'a>(stmt: &'a Statement, offset: usize, tokens: &Vec<OwnedToken>) -> (r: Option<&'a BlockStatement>)
    ensures
        match r {
            Some(b) => block_at(tokens@, *stmt, offset as int) == Some(*b),
            None => block_at(tokens@, *stmt, offset as int) is None,
        },
    decreases stmt,
{
    match stmt {
        Statement::Block(b) => {
            let e = match wrap_end_of(b, tokens) {
                Some(e) => e,
                None => return None,
            };
            if offset >= b.span.start as usize && offset <= e as usize {
                match find_block_in_all(&b.statements, offset, tokens) {
                    Some(inner) => Some(inner),
                    None => Some(b),
                }
            } else {
                None
            }
        },
        Statement::If { then_branch, else_branch, .. } => match find_block_at_offset(then_branch, offset, tokens) {
            Some(v) => Some(v),
            None => match else_branch {
                Some(e) => find_block_at_offset(e, offset, tokens),
                None => None,
            },
        },
        Statement::While { body, .. } => find_block_at_offset(body, offset, tokens),
        Statement::TryCatch { try_block, catch_block, .. } => match find_block_in_all(&try_block.statements, offset, tokens) {
            Some(v) => Some(v),
            None => find_block_in_all(&catch_block.statements, offset, tokens),
        },
        Statement::Create(c) => match &**c {
            CreateStatement::Procedure(pd) => find_block_in_all(&pd.body, offset, tokens),
            CreateStatement::Trigger(tr) => find_block_in_all(&tr.body, offset, tokens),
            _ => None,
        },
        _ => None,
    }
}

fn find_block_in_all<'a>(ss: &'a Vec<Statement>, offset: usize, tokens: &Vec<OwnedToken>) -> (r: Option<&'a BlockStatement>)
    ensures
        match r {
            Some(b) => block_at_all(tokens@, ss@, offset as int) == Some(*b),
            None => block_at_all(tokens@, ss@, offset as int) is None,
        },
    decreases ss,
{
    let mut i: usize = 0;
    assert(ss@.take(0) =~= Seq::<Statement>::empty());
    while i < ss.len()
        invariant
            i <= ss@.len(),
            block_at_all(tokens@, ss@.take(i as int), offset as int) is None,
        decreases ss@.len() - i,
    {
        assert(ss@.take(i + 1).drop_last() =~= ss@.take(i as int));
        match find_block_at_offset(&ss[i], offset, tokens) {
            Some(b) => {
                proof {
                    lemma_block_at_prefix(tokens@, ss@, i + 1, offset as int);
                }
                return Some(b);
            },
            None => {},
        }
        i = i + 1;
    }
    assert(ss@.take(ss@.len() as int) =~= ss@);
    None
}

/// Lines `lo` up to (not including) `hi` of a text, joined with line feeds.
pub open spec fn body_lines(cs: Seq<char>, lo: nat, hi: nat) -> Seq<char>
    decreases hi,
{
    if hi <= lo {
        Seq::empty()
    } else if hi == lo + 1 {
        line_text(cs, lo)
    } else {
        body_lines(cs, lo, (hi - 1) as nat) + "\n"@ + line_text(cs, (hi - 1) as nat)
    }
}

/// A block's lines wrapped in TRY ... CATCH at the given indentation.
pub open spec fn wrap_text(ind: Seq<char>, body: Seq<char>) -> Seq<char> {
    ind + "BEGIN TRY\n"@ + body + "\n"@ + ind + "END TRY\n"@ + ind + "BEGIN CATCH\n"@ + ind
        + "    -- Handle error\n"@ + ind + "END CATCH"@
}

/// The TRY ... CATCH wrapping at a position: when the cursor's line reads
/// BEGIN, the first block around the cursor whose end resolves is replaced,
/// from the start of its first line to the end of its last line, by its
/// inner lines wrapped in TRY ... CATCH.
pub open spec fn wrap_action(a: &DocumentAnalysis, pos: Position, uri: Seq<char>) -> Option<ActionView> {
    if !eq_ignore_ascii(trim(line_text(a.source@, pos.line as nat)), "BEGIN"@) {
        None
    } else {
        let offset = position_offset(a.line_index@, encode_utf8(a.source@), pos);
        match block_at_all(a.tokens@, a.statements@, offset) {
            Some(b) => match wrap_block_end(a.tokens@, b) {
                Some(e) => {
                    let sl = position_at(a.line_index@, b.span.start as int).line;
                    let el = position_at(a.line_index@, e).line;
                    let last = line_text(a.source@, el as nat);
                    Some(ActionView {
                        title: "Wrap with TRY...CATCH"@,
                        kind: CodeActionKind::Refactor,
                        uri,
                        range: Range {
                            start: Position { line: sl, character: 0 },
                            end: Position { line: el, character: (encode_utf8(last).len() as usize) as u32 },
                        },
                        new_text: wrap_text(
                            indent_of(line_text(a.source@, sl as nat)),
                            body_lines(a.source@, (sl + 1) as nat, el as nat),
                        ),
                    })
                },
                None => None,
            },
            None => None,
        }
    }
}

fn push_line_range(s: &mut String, analysis: &DocumentAnalysis, lo: u32, hi: u32)
    ensures
        final(s)@ == old(s)@ + body_lines(analysis.source@, lo as nat, hi as nat),
{
    if hi <= lo {
        return;
    }
    let mut l: u32 = lo;
    s.append(analysis.get_line(l));
    l = l + 1;
    while l < hi
        invariant
            lo < l <= hi,
            s@ == old(s)@ + body_lines(analysis.source@, lo as nat, l as nat),
        decreases hi - l,
    {
        s.append("\n");
        s.append(analysis.get_line(l));
        l = l + 1;
    }
}

/// The TRY ... CATCH wrapping at a position (see [`wrap_action`]).
pub fn try_wrap_try_catch_ast(analysis: &DocumentAnalysis, position: Position, uri: &String) -> (r: Option<CodeAction>)
    requires
        analysis.index_matches(),
    ensures
        match wrap_action(analysis, position, uri@) {
            Some(v) => r matches Some(act) && action_is(act, v),
            None => r is None,
        },
{
    if !is_begin_line(analysis.get_line(position.line)) {
        return None;
    }
    let offset = analysis.line_index.position_to_offset(analysis.source.as_str(), position);
    let b = match find_block_in_all(&analysis.statements, offset, &analysis.tokens) {
        Some(b) => b,
        None => return None,
    };
    let e = match wrap_end_of(b, &analysis.tokens) {
        Some(e) => e,
        None => return None,
    };
    let (sl, _) = analysis.line_index.offset_to_position(b.span.start);
    let (el, _) = analysis.line_index.offset_to_position(e);
    let first = chars_of(analysis.get_line(sl));
    let k = leading_ws(&first);
    let ind = string_of(&first, 0, k);
    let mut text = ind.clone();
    text.append("BEGIN TRY\n");
    if (sl as u64) + 1 <= u32::MAX as u64 {
        push_line_range(&mut text, analysis, sl + 1, el);
    }
    text.append("\n");
    text.append(ind.as_str());
    text.append("END TRY\n");
    text.append(ind.as_str());
    text.append("BEGIN CATCH\n");
    text.append(ind.as_str());
    text.append("    -- Handle error\n");
    text.append(ind.as_str());
    text.append("END CATCH");
    let last = analysis.get_line(el);
    let ec: u32 = #[verifier::truncate] (last.len() as u32);
    proof {
        let ghost line0 = line_text(analysis.source@, sl as nat);
        assert(ind@ =~= indent_of(line0));
        assert(text@ =~= wrap_text(indent_of(line0), body_lines(analysis.source@, (sl + 1) as nat, el as nat)));
    }
    Some(make_action(
        String::from_str("Wrap with TRY...CATCH"),
        CodeActionKind::Refactor,
        uri,
        Range { start: Position { line: sl, character: 0 }, end: Position { line: el, character: ec } },
        text,
    ))
}


/// First index at or after `k` at which `b` holds `n` as a contiguous part.
pub open spec fn first_sub(b: Seq<u8>, n: Seq<u8>, k: int) -> Option<int>
    decreases b.len() + 1 - k,
{
    if k < 0 || k + n.len() > b.len() {
        None
    } else if b.subrange(k, k + n.len()) == n {
        Some(k)
    } else {
        first_sub(b, n, k + 1)
    }
}

fn find_sub(b: &[u8], n: &[u8]) -> (r: Option<usize>)
    ensures
        match r {
            Some(k) => first_sub(b@, n@, 0) == Some(k as int),
            None => first_sub(b@, n@, 0) is None,
        },
{
    if n.len() > b.len() {
        return None;
    }
    let mut k: usize = 0;
    while k <= b.len() - n.len()
        invariant
            n@.len() <= b@.len(),
            first_sub(b@, n@, 0) == first_sub(b@, n@, k as int),
        decreases b@.len() + 1 - k,
    {
        let mut m: usize = 0;
        let mut same = true;
        while m < n.len()
            invariant
                m <= n@.len(),
                k + n.len() <= b.len(),
                same == (forall|q: int| 0 <= q < m ==> b@[k + q] == n@[q]),
            decreases n@.len() - m,
        {
            if b[k + m] != n[m] {
                same = false;
            }
            m = m + 1;
        }
        if same {
            assert(b@.subrange(k as int, k + n@.len()) =~= n@);
            return Some(k);
        }
        assert(b@.subrange(k as int, k + n@.len()) != n@) by {
            let q = choose|q: int| 0 <= q < n@.len() && b@[k + q] != n@[q];
            assert(b@.subrange(k as int, k + n@.len())[q] == b@[k + q]);
        }
        k = k + 1;
    }
    None
}

/// Index just past the run of non-whitespace characters starting at `k`.
pub open spec fn word_end(u: Seq<char>, k: int) -> int
    decreases u.len() - k,
{
    if 0 <= k < u.len() && !is_ws(u[k]) {
        word_end(u, k + 1)
    } else {
        k
    }
}

proof fn lemma_word_end(u: Seq<char>, k: int)
    requires
        0 <= k <= u.len(),
    ensures
        k <= word_end(u, k) <= u.len(),
    decreases u.len() - k,
{
    if k < u.len() && !is_ws(u[k]) {
        lemma_word_end(u, k + 1);
    }
}

fn word_end_of(u: &Vec<char>, k: usize) -> (e: usize)
    requires
        k <= u@.len(),
    ensures
        e == word_end(u@, k as int),
        k <= e <= u@.len(),
{
    proof {
        lemma_word_end(u@, k as int);
    }
    let mut e = k;
    while e < u.len() && !char_is_whitespace(u[e])
        invariant
            k <= e <= u@.len(),
            word_end(u@, e as int) == word_end(u@, k as int),
        decreases u@.len() - e,
    {
        e = e + 1;
    }
    e
}

/// `s` without all trailing copies of `c`.
pub open spec fn strip_end(s: Seq<char>, c: char) -> Seq<char>
    decreases s.len(),
{
    if s.len() > 0 && s.last() == c {
        strip_end(s.drop_last(), c)
    } else {
        s
    }
}

fn strip_end_len(cs: &Vec<char>, n: usize, c: char) -> (m: usize)
    requires
        n <= cs@.len(),
    ensures
        m <= n,
        cs@.subrange(0, m as int) == strip_end(cs@.subrange(0, n as int), c),
{
    let mut m = n;
    while m > 0 && cs[m - 1] == c
        invariant
            m <= n <= cs@.len(),
            strip_end(cs@.subrange(0, n as int), c) == strip_end(cs@.subrange(0, m as int), c),
        decreases m,
    {
        assert(cs@.subrange(0, m as int).drop_last() =~= cs@.subrange(0, m - 1));
        m = m - 1;
    }
    m
}

/// The table name that a line's `INSERT INTO` names: the first word after
/// the first `INSERT INTO` of the upper-cased line, without trailing `;`
/// and then without trailing `,`. None without `INSERT INTO`, and where the
/// match's end is no character boundary of the line itself (there the
/// slicing of the line would panic).
pub open spec fn line_insert_table(line: Seq<char>) -> Option<Seq<char>> {
    let lb = encode_utf8(line);
    match first_sub(encode_utf8(uppercase(line)), encode_utf8("INSERT INTO"@), 0) {
        Some(p) => if p + 11 > lb.len() || !is_char_boundary(lb, p + 11) {
            None
        } else {
            let after = decode_utf8(lb.subrange(p + 11, lb.len() as int));
            let a = ws_run(after, 0);
            Some(strip_end(strip_end(after.subrange(a, word_end(after, a)), ';'), ','))
        },
        None => None,
    }
}

/// The line-level INSERT skeleton: for a line naming `INSERT INTO table`
/// without VALUES or SELECT, where the table has columns, replace the whole
/// line with an INSERT listing the columns that are not IDENTITY columns and
/// one placeholder each.
pub open spec fn line_skeleton_action(tables: Seq<(Seq<char>, TableSymbol)>, line: Seq<char>, pos: Position, uri: Seq<char>) -> Option<ActionView> {
    let ub = encode_utf8(uppercase(line));
    match line_insert_table(line) {
        Some(name) => if name.len() == 0 || has_sub(ub, encode_utf8("VALUES"@)) || has_sub(ub, encode_utf8("SELECT"@)) {
            None
        } else {
            match value_of(tables, uppercase(name)) {
                Some(t) => if t@.columns.len() == 0 {
                    None
                } else {
                    Some(ActionView {
                        title: "Generate INSERT skeleton for "@ + name,
                        kind: CodeActionKind::QuickFix,
                        uri,
                        range: Range {
                            start: Position { line: pos.line, character: 0 },
                            end: Position { line: pos.line, character: (encode_utf8(line).len() as usize) as u32 },
                        },
                        new_text: insert_skeleton(name, insertable_names(t@.columns)),
                    })
                },
                None => None,
            }
        },
        None => None,
    }
}

fn insert_table_of(line: &str) -> (r: Option<String>)
    ensures
        match r {
            Some(n) => line_insert_table(line@) == Some(n@),
            None => line_insert_table(line@) is None,
        },
{
    broadcast use encode_utf8_valid_utf8, encode_utf8_decode_utf8;

    let upper = to_uppercase(line);
    let p = match find_sub(upper.as_str().as_bytes(), "INSERT INTO".as_bytes()) {
        Some(p) => p,
        None => return None,
    };
    let len = line.as_bytes().len();
    if p > len || len - p < 11 {
        return None;
    }
    if !line.is_char_boundary(p + 11) {
        return None;
    }
    let (_, rest) = line.split_at(p + 11);
    proof {
        assert(rest@ == decode_utf8(rest.spec_bytes()));
    }
    let cs = chars_of(rest);
    let a = leading_ws(&cs);
    let e = word_end_of(&cs, a);
    let w = chars_from(&cs, a);
    proof {
        lemma_ws_run(cs@, 0);
        assert(w@.subrange(0, e - a) =~= cs@.subrange(a as int, e as int));
    }
    let m1 = strip_end_len(&w, e - a, ';');
    assert(w@.subrange(0, m1 as int) =~= w@.subrange(0, m1 as int).subrange(0, m1 as int));
    let m2 = strip_end_len(&w, m1, ',');
    Some(string_of(&w, 0, m2))
}

/// The line-level INSERT skeleton (see [`line_skeleton_action`]).
fn try_generate_insert_skeleton(symbol_table: &SymbolTable, line: &str, position: Position, uri: &String) -> (r: Option<CodeAction>)
    ensures
        match line_skeleton_action(symbol_table.tables@, line@, position, uri@) {
            Some(v) => r matches Some(act) && action_is(act, v),
            None => r is None,
        },
{
    let name = match insert_table_of(line) {
        Some(n) => n,
        None => return None,
    };
    if name.as_str().as_bytes().len() == 0 {
        return None;
    }
    let upper = to_uppercase(line);
    let ub = upper.as_str().as_bytes();
    if has_sub_in(ub, 0, ub.len(), "VALUES".as_bytes()) || has_sub_in(ub, 0, ub.len(), "SELECT".as_bytes()) {
        proof {
            assert(ub@.subrange(0, ub@.len() as int) =~= ub@);
        }
        return None;
    }
    proof {
        assert(ub@.subrange(0, ub@.len() as int) =~= ub@);
    }
    let tbl = match SymbolTableBuilder::find_table(symbol_table, name.as_str()) {
        Some(t) => t,
        None => return None,
    };
    if tbl.columns.len() == 0 {
        return None;
    }
    let cols = insertable_column_names(tbl);
    let text = skeleton_text(name.as_str(), &cols);
    let mut title = String::from_str("Generate INSERT skeleton for ");
    title.append(name.as_str());
    let ec: u32 = #[verifier::truncate] (line.len() as u32);
    Some(make_action(
        title,
        CodeActionKind::QuickFix,
        uri,
        Range { start: Position { line: position.line, character: 0 }, end: Position { line: position.line, character: ec } },
        text,
    ))
}


/// Line `i` of a text as `str::lines` yields it: the text between line
/// feeds, without the `\r` of a `\r\n` ending; none past the last line.
pub open spec fn std_line(cs: Seq<char>, i: nat) -> Option<Seq<char>> {
    match line_start_char(cs, i) {
        Some(st) => if st < cs.len() {
            let e = next_line_feed(cs, st);
            let raw = cs.subrange(st, e);
            Some(if e < cs.len() && raw.len() > 0 && raw.last() == '\r' { raw.drop_last() } else { raw })
        } else {
            None
        },
        None => None,
    }
}

proof fn lemma_line_start_at_least(cs: Seq<char>, i: nat)
    requires
        line_start_char(cs, i) is Some,
    ensures
        line_start_char(cs, i).unwrap() >= i,
        line_start_char(cs, i).unwrap() <= cs.len(),
    decreases i,
{
    if i > 0 {
        lemma_line_start_at_least(cs, (i - 1) as nat);
        let st = line_start_char(cs, (i - 1) as nat).unwrap();
        lemma_next_line_feed(cs, st);
    }
}

/// Whether a whitespace-separated word starts at `k`.
pub open spec fn word_starts(u: Seq<char>, k: int) -> bool {
    0 <= k < u.len() && !is_ws(u[k]) && (k == 0 || is_ws(u[k - 1]))
}

/// The words of `u` from index `k` on, counted against `depth`: BEGIN
/// raises it (saturating at `u32::MAX`), END lowers it; the first END that
/// brings it to zero closes the scan (`true`), else the depth left.
pub open spec fn words_depth(u: Seq<char>, k: int, depth: u32) -> (bool, u32)
    decreases u.len() - k,
{
    if k < 0 || k >= u.len() {
        (false, depth)
    } else if word_starts(u, k) {
        let w = u.subrange(k, word_end(u, k));
        if w == "BEGIN"@ {
            words_depth(u, k + 1, if depth < u32::MAX { (depth + 1) as u32 } else { depth })
        } else if w == "END"@ {
            let d: u32 = if depth > 0 { (depth - 1) as u32 } else { 0 };
            if d == 0 {
                (true, 0)
            } else {
                words_depth(u, k + 1, d)
            }
        } else {
            words_depth(u, k + 1, depth)
        }
    } else {
        words_depth(u, k + 1, depth)
    }
}

fn scan_words(u: &Vec<char>, depth: u32) -> (r: (bool, u32))
    ensures
        r == words_depth(u@, 0, depth),
{
    let mut k: usize = 0;
    let mut d = depth;
    while k < u.len()
        invariant
            k <= u@.len(),
            words_depth(u@, 0, depth) == words_depth(u@, k as int, d),
        decreases u@.len() - k,
    {
        if !char_is_whitespace(u[k]) && (k == 0 || char_is_whitespace(u[k - 1])) {
            let e = word_end_of(u, k);
            let w = string_of(u, k, e);
            if str_eq(w.as_str(), "BEGIN") {
                d = d.saturating_add(1);
            } else if str_eq(w.as_str(), "END") {
                d = d.saturating_sub(1);
                if d == 0 {
                    return (true, 0);
                }
            }
        }
        k = k + 1;
    }
    (false, d)
}

/// From line `l` on, the first line whose words (trimmed, upper-cased) close
/// the depth.
pub open spec fn match_end_from(cs: Seq<char>, l: nat, depth: u32) -> Option<nat>
    decreases cs.len() - l,
{
    if l >= cs.len() {
        None
    } else {
        match std_line(cs, l) {
            Some(line) => {
                let r = words_depth(uppercase(trim(line)), 0, depth);
                if r.0 {
                    Some(l)
                } else {
                    match_end_from(cs, l + 1, r.1)
                }
            },
            None => None,
        }
    }
}

/// The line of the END matching a BEGIN on line `begin`, counting BEGIN and
/// END words on the following lines (the line number as `u32`, truncated).
pub open spec fn matching_end(cs: Seq<char>, begin: u32) -> Option<u32> {
    match match_end_from(cs, (begin + 1) as nat, 1) {
        Some(l) => Some(l as u32),
        None => None,
    }
}

fn trimmed_upper(cs: &Vec<char>, lo: usize, hi: usize) -> (r: Vec<char>)
    requires
        lo <= hi <= cs@.len(),
    ensures
        r@ == uppercase(trim(cs@.subrange(lo as int, hi as int))),
{
    let line = string_of(cs, lo, hi);
    let lc = chars_of(line.as_str());
    let k = leading_ws(&lc);
    let tail = chars_from(&lc, k);
    let n = trim_end_len(&tail);
    let t = string_of(&tail, 0, n);
    let u = to_uppercase(t.as_str());
    chars_of(u.as_str())
}

/// The line of the END matching a BEGIN on line `begin_line` (see
/// [`matching_end`]).
pub fn find_matching_end(source: &str, begin_line: u32) -> (r: Option<u32>)
    ensures
        r == matching_end(source@, begin_line),
{
    let cs = chars_of(source);
    let ghost c = cs@;
    let target: u64 = begin_line as u64 + 1;
    if target >= cs.len() as u64 {
        return None;
    }
    let target = target as usize;
    let mut st: usize = 0;
    let mut k: usize = 0;
    while k < target
        invariant
            c == cs@,
            c == source@,
            target == begin_line + 1,
            k <= target < c.len(),
            st <= c.len(),
            line_start_char(c, k as nat) == Some(st as int),
        decreases target - k,
    {
        let e = next_lf(&cs, st);
        if e >= cs.len() {
            proof {
                assert(line_start_char(c, (k + 1) as nat) is None);
                lemma_no_line_after(c, (k + 1) as nat, target as nat);
                assert(std_line(c, target as nat) is None);
                assert(match_end_from(c, target as nat, 1) is None);
            }
            return None;
        }
        st = e + 1;
        k = k + 1;
    }
    let mut l: usize = target;
    let mut depth: u32 = 1;
    assert(target as nat == (begin_line + 1) as nat);
    while l < cs.len()
        invariant
            c == cs@,
            c == source@,
            target == begin_line + 1,
            target <= l,
            st <= c.len(),
            line_start_char(c, l as nat) == Some(st as int),
            match_end_from(c, target as nat, 1) == match_end_from(c, l as nat, depth),
        decreases c.len() - l,
    {
        if st >= cs.len() {
            return None;
        }
        let e = next_lf(&cs, st);
        let mut t = e;
        if e < cs.len() && e > st && cs[e - 1] == '\r' {
            t = e - 1;
        }
        proof {
            let raw = c.subrange(st as int, e as int);
            if e < c.len() && raw.len() > 0 && raw.last() == '\r' {
                assert(c.subrange(st as int, t as int) =~= raw.drop_last());
            } else {
                assert(c.subrange(st as int, t as int) =~= raw);
            }
        }
        let u = trimmed_upper(&cs, st, t);
        let (closed, d) = scan_words(&u, depth);
        assert(std_line(c, l as nat) == Some(c.subrange(st as int, t as int)));
        if closed {
            return Some(#[verifier::truncate] (l as u32));
        }
        if e >= cs.len() {
            proof {
                assert(line_start_char(c, (l + 1) as nat) is None);
                if l + 1 < c.len() {
                    assert(std_line(c, (l + 1) as nat) is None);
                }
                assert(match_end_from(c, (l + 1) as nat, d) is None);
            }
            return None;
        }
        depth = d;
        st = e + 1;
        l = l + 1;
    }
    None
}

/// The TRY ... CATCH wrapping found from the text alone: when the cursor's
/// line reads BEGIN and a matching END line is found, the lines from the
/// cursor's to the END's are replaced by `BEGIN TRY` / `BEGIN` ... `END` /
/// `END TRY` and an empty CATCH block, at the cursor line's indentation.
pub open spec fn text_wrap_action(source: Seq<char>, line: Seq<char>, pos: Position, uri: Seq<char>) -> Option<ActionView> {
    if !eq_ignore_ascii(trim(line), "BEGIN"@) {
        None
    } else {
        match matching_end(source, pos.line) {
            Some(el) => match std_line(source, el as nat) {
                Some(last) => {
                    let ind = indent_of(line);
                    Some(ActionView {
                        title: "Wrap with TRY...CATCH"@,
                        kind: CodeActionKind::Refactor,
                        uri,
                        range: Range {
                            start: Position { line: pos.line, character: 0 },
                            end: Position { line: el, character: (encode_utf8(last).len() as usize) as u32 },
                        },
                        new_text: ind + "BEGIN TRY\n"@ + ind + "    BEGIN"@ + "\n"@ + ind + "    END\n"@ + ind + "END TRY\n"@
                            + ind + "BEGIN CATCH\n"@ + ind + "    -- Handle error\n"@ + ind + "END CATCH"@,
                    })
                },
                None => None,
            },
            None => None,
        }
    }
}

fn nth_line_len(source: &str, n: u32) -> (r: Option<u32>)
    ensures
        match r {
            Some(v) => std_line(source@, n as nat) matches Some(last) && v == (encode_utf8(last).len() as usize) as u32,
            None => std_line(source@, n as nat) is None,
        },
{
    let cs = chars_of(source);
    let ghost c = cs@;
    let mut st: usize = 0;
    let mut k: u32 = 0;
    while k < n
        invariant
            c == cs@,
            c == source@,
            k <= n,
            st <= c.len(),
            line_start_char(c, k as nat) == Some(st as int),
        decreases n - k,
    {
        let e = next_lf(&cs, st);
        if e >= cs.len() {
            proof {
                assert(line_start_char(c, (k + 1) as nat) is None);
                lemma_no_line_after(c, (k + 1) as nat, n as nat);
            }
            return None;
        }
        st = e + 1;
        k = k + 1;
    }
    if st >= cs.len() {
        return None;
    }
    let e = next_lf(&cs, st);
    let mut t = e;
    if e < cs.len() && e > st && cs[e - 1] == '\r' {
        t = e - 1;
    }
    proof {
        let raw = c.subrange(st as int, e as int);
        if e < c.len() && raw.len() > 0 && raw.last() == '\r' {
            assert(c.subrange(st as int, t as int) =~= raw.drop_last());
        } else {
            assert(c.subrange(st as int, t as int) =~= raw);
        }
    }
    let line = string_of(&cs, st, t);
    Some(#[verifier::truncate] (line.as_str().len() as u32))
}

/// The text-based TRY ... CATCH wrapping (see [`text_wrap_action`]).
fn try_wrap_try_catch(source: &str, line: &str, position: Position, uri: &String) -> (r: Option<CodeAction>)
    ensures
        match text_wrap_action(source@, line@, position, uri@) {
            Some(v) => r matches Some(act) && action_is(act, v),
            None => r is None,
        },
{
    if !is_begin_line(line) {
        return None;
    }
    let el = match find_matching_end(source, position.line) {
        Some(el) => el,
        None => return None,
    };
    let ec = match nth_line_len(source, el) {
        Some(v) => v,
        None => return None,
    };
    let lc = chars_of(line);
    let k = leading_ws(&lc);
    let ind = string_of(&lc, 0, k);
    let mut text = ind.clone();
    text.append("BEGIN TRY\n");
    text.append(ind.as_str());
    text.append("    BEGIN");
    text.append("\n");
    text.append(ind.as_str());
    text.append("    END\n");
    text.append(ind.as_str());
    text.append("END TRY\n");
    text.append(ind.as_str());
    text.append("BEGIN CATCH\n");
    text.append(ind.as_str());
    text.append("    -- Handle error\n");
    text.append(ind.as_str());
    text.append("END CATCH");
    proof {
        assert(ind@ =~= indent_of(line@));
    }
    Some(make_action(
        String::from_str("Wrap with TRY...CATCH"),
        CodeActionKind::Refactor,
        uri,
        Range { start: Position { line: position.line, character: 0 }, end: Position { line: el, character: ec } },
        text,
    ))
}


/// An optional action as a sequence of none or one.
pub open spec fn opt_seq(o: Option<ActionView>) -> Seq<ActionView> {
    match o {
        Some(v) => seq![v],
        None => Seq::empty(),
    }
}

/// The actions offered at the start of a range, in order: the `SELECT *`
/// expansion; the INSERT skeleton (from the statements, else from the
/// cursor's line); the INSERT column list; the TRY ... CATCH wrapping (from
/// the statements, else from the text).
pub open spec fn actions_at(a: &DocumentAnalysis, range: Range, uri: Seq<char>) -> Seq<ActionView> {
    let p = range.start;
    let off = position_offset(a.line_index@, encode_utf8(a.source@), p);
    let line = line_text(a.source@, p.line as nat);
    opt_seq(expand_action(a, off, uri)) + (match skeleton_action(a, off, uri) {
        Some(v) => seq![v],
        None => opt_seq(line_skeleton_action(a.symbol_table.tables@, line, p, uri)),
    }) + opt_seq(column_list_in_all(a, a.statements@, off, uri)) + (match wrap_action(a, p, uri) {
        Some(v) => seq![v],
        None => opt_seq(text_wrap_action(a.source@, line, p, uri)),
    })
}

/// Each action holds the content at the same index of `vs`.
pub open spec fn actions_are(r: Seq<CodeAction>, vs: Seq<ActionView>) -> bool {
    &&& r.len() == vs.len()
    &&& forall|i: int| 0 <= i < r.len() ==> action_is(#[trigger] r[i], vs[i])
}

fn push_opt(r: &mut Vec<CodeAction>, o: Option<CodeAction>, Ghost(v): Ghost<Option<ActionView>>)
    requires
        match v {
            Some(w) => o matches Some(act) && action_is(act, w),
            None => o is None,
        },
    ensures
        final(r)@.len() == old(r)@.len() + opt_seq(v).len(),
        forall|i: int| 0 <= i < old(r)@.len() ==> final(r)@[i] == old(r)@[i],
        forall|i: int| 0 <= i < opt_seq(v).len() ==> action_is(#[trigger] final(r)@[old(r)@.len() + i], opt_seq(v)[i]),
{
    match o {
        Some(a) => r.push(a),
        None => {},
    }
}

/// The code actions at the start of a range (see [`actions_at`]).
pub fn code_actions_with_analysis(analysis: &DocumentAnalysis, range: Range, uri: &String) -> (r: Vec<CodeAction>)
    requires
        analysis.index_matches(),
    ensures
        actions_are(r@, actions_at(analysis, range, uri@)),
{
    let p = range.start;
    let ghost off = position_offset(analysis.line_index@, encode_utf8(analysis.source@), p);
    let ghost line = line_text(analysis.source@, p.line as nat);
    let mut r: Vec<CodeAction> = Vec::new();
    let ghost v1 = expand_action(analysis, off, uri@);
    push_opt(&mut r, try_expand_select_star_ast(analysis, p, uri), Ghost(v1));
    let ghost r1 = r@;
    let ghost v2 = match skeleton_action(analysis, off, uri@) {
        Some(v) => Some(v),
        None => line_skeleton_action(analysis.symbol_table.tables@, line, p, uri@),
    };
    let sk = match try_generate_insert_skeleton_ast(analysis, p, uri) {
        Some(a) => Some(a),
        None => try_generate_insert_skeleton(&analysis.symbol_table, analysis.get_line(p.line), p, uri),
    };
    push_opt(&mut r, sk, Ghost(v2));
    let ghost r2 = r@;
    let ghost v3 = column_list_in_all(analysis, analysis.statements@, off, uri@);
    push_opt(&mut r, try_add_insert_column_list_ast(analysis, p, uri), Ghost(v3));
    let ghost r3 = r@;
    let ghost v4 = match wrap_action(analysis, p, uri@) {
        Some(v) => Some(v),
        None => text_wrap_action(analysis.source@, line, p, uri@),
    };
    let wr = match try_wrap_try_catch_ast(analysis, p, uri) {
        Some(a) => Some(a),
        None => try_wrap_try_catch(analysis.source.as_str(), analysis.get_line(p.line), p, uri),
    };
    push_opt(&mut r, wr, Ghost(v4));
    proof {
        let vs = actions_at(analysis, range, uri@);
        let s1 = opt_seq(v1);
        let s2 = opt_seq(v2);
        let s3 = opt_seq(v3);
        let s4 = opt_seq(v4);
        assert(s2 == (match skeleton_action(analysis, off, uri@) {
            Some(v) => seq![v],
            None => opt_seq(line_skeleton_action(analysis.symbol_table.tables@, line, p, uri@)),
        }));
        assert(s4 == (match wrap_action(analysis, p, uri@) {
            Some(v) => seq![v],
            None => opt_seq(text_wrap_action(analysis.source@, line, p, uri@)),
        }));
        assert(vs =~= s1 + s2 + s3 + s4);
        assert(actions_are(r1, s1)) by {
            assert forall|i: int| 0 <= i < r1.len() implies action_is(#[trigger] r1[i], s1[i]) by {
                assert(r1[0 + i] == r1[i]);
            }
        }
        assert(actions_are(r2, s1 + s2)) by {
            assert forall|i: int| 0 <= i < r2.len() implies action_is(#[trigger] r2[i], (s1 + s2)[i]) by {
                if i >= r1.len() {
                    assert(r2[r1.len() + (i - r1.len())] == r2[i]);
                }
            }
        }
        assert(actions_are(r3, s1 + s2 + s3)) by {
            assert forall|i: int| 0 <= i < r3.len() implies action_is(#[trigger] r3[i], (s1 + s2 + s3)[i]) by {
                if i >= r2.len() {
                    assert(r3[r2.len() + (i - r2.len())] == r3[i]);
                } else {
                    assert(r3[i] == r2[i]);
                }
            }
        }
        assert forall|i: int| 0 <= i < r@.len() implies action_is(#[trigger] r@[i], vs[i]) by {
            if i >= r3.len() {
                assert(r@[r3.len() + (i - r3.len())] == r@[i]);
            } else {
                assert(r@[i] == r3[i]);
            }
        }
    }
    r
}


/// The BEGIN/END depth at the start of line `l` when the scan starts at
/// line `s` with depth `d`: each line before `l` (and from `s` on) moves it
/// by its words.
pub open spec fn depth_at(cs: Seq<char>, s: nat, d: u32, l: nat) -> u32
    decreases l,
{
    if l <= s {
        d
    } else {
        let p = depth_at(cs, s, d, (l - 1) as nat);
        match std_line(cs, (l - 1) as nat) {
            Some(line) => words_depth(uppercase(trim(line)), 0, p).1,
            None => p,
        }
    }
}

/// Whether line `l` exists and its words bring the depth it starts with
/// (scanning from line `s` with depth `d`) to zero.
pub open spec fn closes_at(cs: Seq<char>, s: nat, d: u32, l: nat) -> bool {
    &&& l < cs.len()
    &&& std_line(cs, l) matches Some(line) && words_depth(uppercase(trim(line)), 0, depth_at(cs, s, d, l)).0
}

proof fn lemma_depth_at_shift(cs: Seq<char>, s: nat, d: u32, l: nat)
    requires
        s < cs.len(),
        std_line(cs, s) is Some,
        s + 1 <= l,
    ensures
        depth_at(cs, s + 1, words_depth(uppercase(trim(std_line(cs, s)->0)), 0, d).1, l) == depth_at(cs, s, d, l),
    decreases l,
{
    let d1 = words_depth(uppercase(trim(std_line(cs, s)->0)), 0, d).1;
    assert(depth_at(cs, s, d, s) == d);
    if l > s + 1 {
        lemma_depth_at_shift(cs, s, d, (l - 1) as nat);
        assert(depth_at(cs, s + 1, d1, l) == match std_line(cs, (l - 1) as nat) {
            Some(line) => words_depth(uppercase(trim(line)), 0, depth_at(cs, s + 1, d1, (l - 1) as nat)).1,
            None => depth_at(cs, s + 1, d1, (l - 1) as nat),
        });
    } else {
        assert(l == s + 1);
        assert(depth_at(cs, s + 1, d1, l) == d1);
        assert((l - 1) as nat == s);
    }
}

/// Whether every line from `s` up to (not including) `k` exists and none
/// of them closes the depth (scanning from line `s` with depth `d`).
pub open spec fn open_until(cs: Seq<char>, s: nat, d: u32, k: nat) -> bool
    decreases k,
{
    if k <= s {
        true
    } else {
        open_until(cs, s, d, (k - 1) as nat) && std_line(cs, (k - 1) as nat) is Some && !closes_at(
            cs,
            s,
            d,
            (k - 1) as nat,
        )
    }
}

proof fn lemma_open_until_first(cs: Seq<char>, s: nat, d: u32, k: nat)
    requires
        s < k,
        open_until(cs, s, d, k),
    ensures
        std_line(cs, s) is Some && !closes_at(cs, s, d, s),
    decreases k,
{
    if k - 1 > s {
        lemma_open_until_first(cs, s, d, (k - 1) as nat);
    }
}

proof fn lemma_open_until_shift(cs: Seq<char>, s: nat, d: u32, k: nat)
    requires
        s < cs.len(),
        std_line(cs, s) is Some,
        !closes_at(cs, s, d, s),
        s + 1 <= k,
    ensures
        open_until(cs, s + 1, words_depth(uppercase(trim(std_line(cs, s)->0)), 0, d).1, k) == open_until(cs, s, d, k),
    decreases k,
{
    let d1 = words_depth(uppercase(trim(std_line(cs, s)->0)), 0, d).1;
    if k > s + 1 {
        lemma_open_until_shift(cs, s, d, (k - 1) as nat);
        lemma_depth_at_shift(cs, s, d, (k - 1) as nat);
    } else {
        assert(open_until(cs, s, d, s));
    }
}

/// The scan for the matching END from line `s` with depth `d` ends on line
/// `k` exactly when `k` is the first line from `s` on that closes the depth,
/// with every line before it present.
pub proof fn law_match_end_is_first_closing_line(cs: Seq<char>, s: nat, d: u32)
    ensures
        match_end_from(cs, s, d) matches Some(k) ==> s <= k && closes_at(cs, s, d, k) && open_until(cs, s, d, k),
        forall|k: nat|
            s <= k && #[trigger] closes_at(cs, s, d, k) && open_until(cs, s, d, k) ==> match_end_from(cs, s, d)
                == Some(k),
    decreases cs.len() - s,
{
    assert(depth_at(cs, s, d, s) == d);
    assert(open_until(cs, s, d, s));
    if s < cs.len() {
        match std_line(cs, s) {
            Some(line) => {
                let d1: u32 = words_depth(uppercase(trim(line)), 0, d).1;
                let s1: nat = s + 1;
                if !closes_at(cs, s, d, s) {
                    assert(match_end_from(cs, s, d) == match_end_from(cs, s1, d1));
                    law_match_end_is_first_closing_line(cs, s1, d1);
                    if let Some(k) = match_end_from(cs, s1, d1) {
                        lemma_depth_at_shift(cs, s, d, k);
                        lemma_open_until_shift(cs, s, d, k);
                    }
                    assert forall|k: nat|
                        s <= k && #[trigger] closes_at(cs, s, d, k) && open_until(cs, s, d, k) implies match_end_from(
                            cs,
                            s,
                            d,
                        ) == Some(k) by {
                        assert(k != s);
                        lemma_depth_at_shift(cs, s, d, k);
                        lemma_open_until_shift(cs, s, d, k);
                        assert(closes_at(cs, s1, d1, k));
                    }
                } else {
                    assert forall|k: nat|
                        s <= k && #[trigger] closes_at(cs, s, d, k) && open_until(cs, s, d, k) implies match_end_from(
                            cs,
                            s,
                            d,
                        ) == Some(k) by {
                        if k > s {
                            lemma_open_until_first(cs, s, d, k);
                        }
                    }
                }
            },
            None => {
                assert forall|k: nat|
                    s <= k && #[trigger] closes_at(cs, s, d, k) && open_until(cs, s, d, k) implies match_end_from(
                        cs,
                        s,
                        d,
                    ) == Some(k) by {
                    if k > s {
                        lemma_open_until_first(cs, s, d, k);
                    }
                }
            },
        }
    }
}

/// The END matching a BEGIN on line `begin` is on the first line after it
/// at which the BEGIN/END count, starting at one, drops to zero, every line
/// up to it present; there is none when no line does.
pub proof fn law_matching_end_first_zero(cs: Seq<char>, begin: u32)
    requires
        begin < u32::MAX,
        cs.len() <= u32::MAX,
    ensures
        matching_end(cs, begin) matches Some(k) ==> begin < k && closes_at(cs, (begin + 1) as nat, 1, k as nat)
            && open_until(cs, (begin + 1) as nat, 1, k as nat),
        forall|k: nat|
            begin < k && #[trigger] closes_at(cs, (begin + 1) as nat, 1, k) && open_until(cs, (begin + 1) as nat, 1, k)
                ==> matching_end(cs, begin) == Some(k as u32),
{
    let s1: nat = (begin + 1) as nat;
    law_match_end_is_first_closing_line(cs, s1, 1);
    if let Some(l) = match_end_from(cs, s1, 1) {
        assert(l < cs.len());
        assert((l as u32) as nat == l);
    }
}

} // verus!
