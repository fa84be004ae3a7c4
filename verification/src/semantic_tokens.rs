//! Semantic tokens: a highlighting class for each token, sent to the editor
//! delta-encoded (each token's line and start relative to the previous one).

use crate::analysis::DocumentAnalysis;
use crate::ast::{
    Expression, FromClause, Join, SelectItem, SelectStatement, Statement, TableReference,
    InsertSource, CreateStatement,
};
use crate::line_index::position_at;
use crate::position::{Position, Range};
use crate::symbol_table::semantic_type_of;
use crate::token::{Span, OwnedToken, TokenKind};
use vstd::prelude::*;
use vstd::string::*;

verus! {

/// Class index of tables and views.
pub const TYPE_CLASS: u32 = 9;

/// Class index of function calls and procedures.
pub const TYPE_FUNCTION: u32 = 2;

/// Names of the highlighting classes, by index.
pub open spec fn legend_names() -> Seq<Seq<char>> {
    seq![
        "keyword"@,
        "type"@,
        "function"@,
        "string"@,
        "number"@,
        "comment"@,
        "variable"@,
        "operator"@,
        "parameter"@,
        "class"@,
        "enumMember"@,
    ]
}

/// The legend of highlighting classes: their names, by index.
pub fn semantic_tokens_legend() -> (r: Vec<String>)
    ensures
        r@.map_values(|s: String| s@) == legend_names(),
{
    let mut r: Vec<String> = Vec::new();
    r.push(String::from_str("keyword"));
    r.push(String::from_str("type"));
    r.push(String::from_str("function"));
    r.push(String::from_str("string"));
    r.push(String::from_str("number"));
    r.push(String::from_str("comment"));
    r.push(String::from_str("variable"));
    r.push(String::from_str("operator"));
    r.push(String::from_str("parameter"));
    r.push(String::from_str("class"));
    r.push(String::from_str("enumMember"));
    assert(r@.map_values(|s: String| s@) =~= legend_names());
    r
}

/// Data type keywords.
pub open spec fn is_data_type_kind(k: TokenKind) -> bool {
    match k {
        TokenKind::Int | TokenKind::Integer | TokenKind::Smallint | TokenKind::Tinyint
        | TokenKind::Bigint | TokenKind::Real | TokenKind::Double | TokenKind::Decimal
        | TokenKind::Numeric | TokenKind::Money | TokenKind::Smallmoney | TokenKind::Char
        | TokenKind::Varchar | TokenKind::Text | TokenKind::Nchar | TokenKind::Nvarchar
        | TokenKind::Ntext | TokenKind::Unichar | TokenKind::Univarchar | TokenKind::Unitext
        | TokenKind::Binary | TokenKind::Varbinary | TokenKind::Image | TokenKind::Date
        | TokenKind::Time | TokenKind::Datetime | TokenKind::Smalldatetime | TokenKind::Timestamp
        | TokenKind::Bigdatetime | TokenKind::Bit | TokenKind::Uniqueidentifier => true,
        _ => false,
    }
}

/// Operator tokens.
pub open spec fn is_operator_kind(k: TokenKind) -> bool {
    match k {
        TokenKind::Eq | TokenKind::Ne | TokenKind::NeAlt | TokenKind::Lt | TokenKind::Gt
        | TokenKind::Le | TokenKind::Ge | TokenKind::NotLt | TokenKind::NotGt | TokenKind::Plus
        | TokenKind::Minus | TokenKind::Star | TokenKind::Slash | TokenKind::Percent
        | TokenKind::Ampersand | TokenKind::Pipe | TokenKind::Caret | TokenKind::Tilde
        | TokenKind::Assign | TokenKind::PlusAssign | TokenKind::MinusAssign | TokenKind::StarAssign
        | TokenKind::SlashAssign | TokenKind::Concat => true,
        _ => false,
    }
}

/// Class of a token kind on its own: keywords 0, data types 1, strings 3,
/// numbers 4, comments 5, variables 6, operators 7, temporary tables 9.
pub open spec fn kind_type(k: TokenKind) -> Option<u32> {
    if k.is_keyword() {
        Some(0)
    } else if is_data_type_kind(k) {
        Some(1)
    } else {
        match k {
            TokenKind::String | TokenKind::NString | TokenKind::UnicodeString | TokenKind::HexString => Some(3),
            TokenKind::Number | TokenKind::FloatLiteral => Some(4),
            TokenKind::LineComment | TokenKind::BlockComment => Some(5),
            TokenKind::LocalVar | TokenKind::GlobalVar => Some(6),
            TokenKind::TempTable | TokenKind::GlobalTempTable => Some(9),
            _ => if is_operator_kind(k) {
                Some(7)
            } else {
                None
            },
        }
    }
}

/// Whether tokens of kind `k` get the class whose legend name is `name`.
pub open spec fn class_named(k: TokenKind, name: Seq<char>) -> bool {
    kind_type(k) matches Some(i) && (i as int) < legend_names().len() && legend_names()[i as int] == name
}

/// Each token kind that has a class on its own gets the legend entry named
/// for what it is: keywords "keyword", data types "type", string literals
/// "string", numeric literals "number", comments "comment", variables
/// "variable", operators "operator", temporary tables "class".
pub proof fn law_token_classes_follow_legend(k: TokenKind)
    ensures
        k.is_keyword() ==> class_named(k, "keyword"@),
        !k.is_keyword() && is_data_type_kind(k) ==> class_named(k, "type"@),
        (k == TokenKind::String || k == TokenKind::NString || k == TokenKind::UnicodeString
            || k == TokenKind::HexString) ==> class_named(k, "string"@),
        (k == TokenKind::Number || k == TokenKind::FloatLiteral) ==> class_named(k, "number"@),
        (k == TokenKind::LineComment || k == TokenKind::BlockComment) ==> class_named(k, "comment"@),
        (k == TokenKind::LocalVar || k == TokenKind::GlobalVar) ==> class_named(k, "variable"@),
        is_operator_kind(k) ==> class_named(k, "operator"@),
        (k == TokenKind::TempTable || k == TokenKind::GlobalTempTable) ==> class_named(k, "class"@),
{
}

/// Class of a token kind on its own (see [`kind_type`]).
pub fn token_kind_to_type_index(kind: TokenKind) -> (r: Option<u32>)
    ensures
        r == kind_type(kind),
{
    if kind.is_keyword() {
        return Some(0);
    }
    match kind {
        TokenKind::Int | TokenKind::Integer | TokenKind::Smallint | TokenKind::Tinyint
        | TokenKind::Bigint | TokenKind::Real | TokenKind::Double | TokenKind::Decimal
        | TokenKind::Numeric | TokenKind::Money | TokenKind::Smallmoney | TokenKind::Char
        | TokenKind::Varchar | TokenKind::Text | TokenKind::Nchar | TokenKind::Nvarchar
        | TokenKind::Ntext | TokenKind::Unichar | TokenKind::Univarchar | TokenKind::Unitext
        | TokenKind::Binary | TokenKind::Varbinary | TokenKind::Image | TokenKind::Date
        | TokenKind::Time | TokenKind::Datetime | TokenKind::Smalldatetime | TokenKind::Timestamp
        | TokenKind::Bigdatetime | TokenKind::Bit | TokenKind::Uniqueidentifier => Some(1),
        TokenKind::String | TokenKind::NString | TokenKind::UnicodeString | TokenKind::HexString => Some(3),
        TokenKind::Number | TokenKind::FloatLiteral => Some(4),
        TokenKind::LineComment | TokenKind::BlockComment => Some(5),
        TokenKind::LocalVar | TokenKind::GlobalVar => Some(6),
        TokenKind::TempTable | TokenKind::GlobalTempTable => Some(9),
        TokenKind::Eq | TokenKind::Ne | TokenKind::NeAlt | TokenKind::Lt | TokenKind::Gt
        | TokenKind::Le | TokenKind::Ge | TokenKind::NotLt | TokenKind::NotGt | TokenKind::Plus
        | TokenKind::Minus | TokenKind::Star | TokenKind::Slash | TokenKind::Percent
        | TokenKind::Ampersand | TokenKind::Pipe | TokenKind::Caret | TokenKind::Tilde
        | TokenKind::Assign | TokenKind::PlusAssign | TokenKind::MinusAssign | TokenKind::StarAssign
        | TokenKind::SlashAssign | TokenKind::Concat => Some(7),
        _ => None,
    }
}

/// One classified span, unless the span is empty or reversed.
pub open spec fn entry(sp: Span, ty: u32) -> Seq<(Span, u32)> {
    if sp.start < sp.end {
        seq![(sp, ty)]
    } else {
        Seq::empty()
    }
}

/// Classified spans of an expression: every function call's name as a
/// function, and the spans of subqueries.
pub open spec fn expr_entries(e: Expression) -> Seq<(Span, u32)>
    decreases e,
{
    match e {
        Expression::FunctionCall { name, args } => entry(name.span, TYPE_FUNCTION) + exprs_entries(args@),
        Expression::Subquery(q) => select_entries(*q),
        Expression::Other(children) => exprs_entries(children@),
    }
}

/// Classified spans of expressions, in order.
pub open spec fn exprs_entries(es: Seq<Expression>) -> Seq<(Span, u32)>
    decreases es,
{
    if es.len() == 0 {
        Seq::empty()
    } else {
        exprs_entries(es.drop_last()) + expr_entries(es.last())
    }
}

/// Classified spans of an optional expression.
pub open spec fn opt_entries(o: Option<Expression>) -> Seq<(Span, u32)>
    decreases o,
{
    match o {
        Some(e) => expr_entries(e),
        None => Seq::empty(),
    }
}

/// Classified spans of SELECT list items.
pub open spec fn items_entries(items: Seq<SelectItem>) -> Seq<(Span, u32)>
    decreases items,
{
    if items.len() == 0 {
        Seq::empty()
    } else {
        items_entries(items.drop_last()) + match items.last() {
            SelectItem::Expression(e) => expr_entries(e),
            _ => Seq::empty(),
        }
    }
}

/// Classified spans of a table source: a named table as a class.
pub open spec fn tref_entries(tr: TableReference) -> Seq<(Span, u32)>
    decreases tr,
{
    match tr {
        TableReference::Table { name, .. } => entry(name.span, TYPE_CLASS),
        TableReference::Subquery { query, .. } => select_entries(*query),
        TableReference::Joined { joins } => joins_entries(joins@),
    }
}

/// Classified spans of table sources, in order.
pub open spec fn trefs_entries(rs: Seq<TableReference>) -> Seq<(Span, u32)>
    decreases rs,
{
    if rs.len() == 0 {
        Seq::empty()
    } else {
        trefs_entries(rs.drop_last()) + tref_entries(rs.last())
    }
}

/// Classified spans of joins, in order: each table source, then its ON
/// condition.
pub open spec fn joins_entries(js: Seq<Join>) -> Seq<(Span, u32)>
    decreases js,
{
    if js.len() == 0 {
        Seq::empty()
    } else {
        joins_entries(js.drop_last()) + tref_entries(js.last().table) + opt_entries(js.last().on_condition)
    }
}

/// Classified spans of an optional FROM clause.
pub open spec fn from_entries(f: Option<FromClause>) -> Seq<(Span, u32)>
    decreases f,
{
    match f {
        Some(fc) => trefs_entries(fc.tables@) + joins_entries(fc.joins@),
        None => Seq::empty(),
    }
}

/// Classified spans of a SELECT, clause by clause.
pub open spec fn select_entries(q: SelectStatement) -> Seq<(Span, u32)>
    decreases q,
{
    opt_entries(q.top) + items_entries(q.columns@) + from_entries(q.from) + opt_entries(q.where_clause)
        + exprs_entries(q.group_by@) + opt_entries(q.having) + exprs_entries(q.order_by@)
        + exprs_entries(q.limit@)
}

/// Classified spans of VALUES rows.
pub open spec fn rows_entries(rows: Seq<Vec<Expression>>) -> Seq<(Span, u32)>
    decreases rows,
{
    if rows.len() == 0 {
        Seq::empty()
    } else {
        rows_entries(rows.drop_last()) + exprs_entries(rows.last()@)
    }
}

/// Classified spans of a statement: table sources and DML targets as
/// classes, function calls as functions; definitions and declarations give
/// none.
pub open spec fn stmt_entries(s: Statement) -> Seq<(Span, u32)>
    decreases s,
{
    match s {
        Statement::Select(q) => select_entries(*q),
        Statement::Insert { table, source, .. } => entry(table.span, TYPE_CLASS) + match source {
            InsertSource::Values(rows) => rows_entries(rows@),
            InsertSource::Select(q) => select_entries(*q),
            InsertSource::DefaultValues => Seq::empty(),
        },
        Statement::Update { table, assignments, from_clause, where_clause, .. } => tref_entries(table)
            + exprs_entries(assignments@) + from_entries(from_clause) + opt_entries(where_clause),
        Statement::Delete { table, from_clause, where_clause, .. } => entry(table.span, TYPE_CLASS)
            + from_entries(from_clause) + opt_entries(where_clause),
        Statement::If { condition, then_branch, else_branch, .. } => expr_entries(condition)
            + stmt_entries(*then_branch) + match else_branch {
            Some(e) => stmt_entries(*e),
            None => Seq::empty(),
        },
        Statement::While { condition, body, .. } => expr_entries(condition) + stmt_entries(*body),
        Statement::Block(b) => stmts_entries(b.statements@),
        Statement::TryCatch { try_block, catch_block, .. } => stmts_entries(try_block.statements@)
            + stmts_entries(catch_block.statements@),
        Statement::Other { expressions, .. } => exprs_entries(expressions@),
        _ => Seq::empty(),
    }
}

/// Classified spans of statements, in order.
pub open spec fn stmts_entries(ss: Seq<Statement>) -> Seq<(Span, u32)>
    decreases ss,
{
    if ss.len() == 0 {
        Seq::empty()
    } else {
        stmts_entries(ss.drop_last()) + stmt_entries(ss.last())
    }
}

fn push_entry(entries: &mut Vec<(Span, u32)>, sp: Span, ty: u32)
    ensures
        final(entries)@ == old(entries)@ + entry(sp, ty),
{
    if sp.start < sp.end {
        entries.push((sp, ty));
    }
    assert(entries@ =~= old(entries)@ + entry(sp, ty));
}

fn walk_expression(e: &Expression, entries: &mut Vec<(Span, u32)>)
    ensures
        final(entries)@ == old(entries)@ + expr_entries(*e),
    decreases e,
{
    let ghost e0 = entries@;
    match e {
        Expression::FunctionCall { name, args } => {
            push_entry(entries, name.span, TYPE_FUNCTION);
            walk_expressions(args, entries);
        },
        Expression::Subquery(q) => {
            walk_select(q, entries);
        },
        Expression::Other(children) => {
            walk_expressions(children, entries);
        },
    }
    assert(entries@ =~= e0 + expr_entries(*e));
}

fn walk_expressions(es: &Vec<Expression>, entries: &mut Vec<(Span, u32)>)
    ensures
        final(entries)@ == old(entries)@ + exprs_entries(es@),
    decreases es,
{
    let ghost e0 = entries@;
    let mut i: usize = 0;
    assert(es@.take(0) =~= Seq::<Expression>::empty());
    assert(entries@ =~= e0 + exprs_entries(es@.take(0)));
    while i < es.len()
        invariant
            i <= es@.len(),
            entries@ == e0 + exprs_entries(es@.take(i as int)),
        decreases es@.len() - i,
    {
        assert(es@.take(i + 1).drop_last() =~= es@.take(i as int));
        walk_expression(&es[i], entries);
        assert(entries@ =~= e0 + exprs_entries(es@.take(i + 1)));
        i = i + 1;
    }
    assert(es@.take(es@.len() as int) =~= es@);
}

fn walk_opt(o: &Option<Expression>, entries: &mut Vec<(Span, u32)>)
    ensures
        final(entries)@ == old(entries)@ + opt_entries(*o),
    decreases o,
{
    match o {
        Some(e) => {
            walk_expression(e, entries);
        },
        None => {
            assert(entries@ =~= old(entries)@ + opt_entries(*o));
        },
    }
}

fn walk_items(items: &Vec<SelectItem>, entries: &mut Vec<(Span, u32)>)
    ensures
        final(entries)@ == old(entries)@ + items_entries(items@),
    decreases items,
{
    let ghost e0 = entries@;
    let mut i: usize = 0;
    assert(items@.take(0) =~= Seq::<SelectItem>::empty());
    assert(entries@ =~= e0 + items_entries(items@.take(0)));
    while i < items.len()
        invariant
            i <= items@.len(),
            entries@ == e0 + items_entries(items@.take(i as int)),
        decreases items@.len() - i,
    {
        assert(items@.take(i + 1).drop_last() =~= items@.take(i as int));
        match &items[i] {
            SelectItem::Expression(e) => {
                walk_expression(e, entries);
            },
            _ => {},
        }
        assert(entries@ =~= e0 + items_entries(items@.take(i + 1)));
        i = i + 1;
    }
    assert(items@.take(items@.len() as int) =~= items@);
}

fn walk_table_reference(tr: &TableReference, entries: &mut Vec<(Span, u32)>)
    ensures
        final(entries)@ == old(entries)@ + tref_entries(*tr),
    decreases tr,
{
    match tr {
        TableReference::Table { name, .. } => {
            push_entry(entries, name.span, TYPE_CLASS);
        },
        TableReference::Subquery { query, .. } => {
            walk_select(query, entries);
        },
        TableReference::Joined { joins } => {
            walk_joins(joins, entries);
        },
    }
}

fn walk_table_references(rs: &Vec<TableReference>, entries: &mut Vec<(Span, u32)>)
    ensures
        final(entries)@ == old(entries)@ + trefs_entries(rs@),
    decreases rs,
{
    let ghost e0 = entries@;
    let mut i: usize = 0;
    assert(rs@.take(0) =~= Seq::<TableReference>::empty());
    assert(entries@ =~= e0 + trefs_entries(rs@.take(0)));
    while i < rs.len()
        invariant
            i <= rs@.len(),
            entries@ == e0 + trefs_entries(rs@.take(i as int)),
        decreases rs@.len() - i,
    {
        assert(rs@.take(i + 1).drop_last() =~= rs@.take(i as int));
        walk_table_reference(&rs[i], entries);
        assert(entries@ =~= e0 + trefs_entries(rs@.take(i + 1)));
        i = i + 1;
    }
    assert(rs@.take(rs@.len() as int) =~= rs@);
}

fn walk_joins(js: &Vec<Join>, entries: &mut Vec<(Span, u32)>)
    ensures
        final(entries)@ == old(entries)@ + joins_entries(js@),
    decreases js,
{
    let ghost e0 = entries@;
    let mut i: usize = 0;
    assert(js@.take(0) =~= Seq::<Join>::empty());
    assert(entries@ =~= e0 + joins_entries(js@.take(0)));
    while i < js.len()
        invariant
            i <= js@.len(),
            entries@ == e0 + joins_entries(js@.take(i as int)),
        decreases js@.len() - i,
    {
        assert(js@.take(i + 1).drop_last() =~= js@.take(i as int));
        walk_table_reference(&js[i].table, entries);
        walk_opt(&js[i].on_condition, entries);
        assert(entries@ =~= e0 + joins_entries(js@.take(i + 1)));
        i = i + 1;
    }
    assert(js@.take(js@.len() as int) =~= js@);
}

fn walk_from(f: &Option<FromClause>, entries: &mut Vec<(Span, u32)>)
    ensures
        final(entries)@ == old(entries)@ + from_entries(*f),
    decreases f,
{
    let ghost e0 = entries@;
    match f {
        Some(fc) => {
            walk_table_references(&fc.tables, entries);
            walk_joins(&fc.joins, entries);
        },
        None => {},
    }
    assert(entries@ =~= e0 + from_entries(*f));
}

fn walk_select(q: &SelectStatement, entries: &mut Vec<(Span, u32)>)
    ensures
        final(entries)@ == old(entries)@ + select_entries(*q),
    decreases q,
{
    let ghost e0 = entries@;
    walk_opt(&q.top, entries);
    walk_items(&q.columns, entries);
    walk_from(&q.from, entries);
    walk_opt(&q.where_clause, entries);
    walk_expressions(&q.group_by, entries);
    walk_opt(&q.having, entries);
    walk_expressions(&q.order_by, entries);
    walk_expressions(&q.limit, entries);
    assert(entries@ =~= e0 + select_entries(*q));
}

fn walk_rows(rows: &Vec<Vec<Expression>>, entries: &mut Vec<(Span, u32)>)
    ensures
        final(entries)@ == old(entries)@ + rows_entries(rows@),
    decreases rows,
{
    let ghost e0 = entries@;
    let mut i: usize = 0;
    assert(rows@.take(0) =~= Seq::<Vec<Expression>>::empty());
    assert(entries@ =~= e0 + rows_entries(rows@.take(0)));
    while i < rows.len()
        invariant
            i <= rows@.len(),
            entries@ == e0 + rows_entries(rows@.take(i as int)),
        decreases rows@.len() - i,
    {
        assert(rows@.take(i + 1).drop_last() =~= rows@.take(i as int));
        walk_expressions(&rows[i], entries);
        assert(entries@ =~= e0 + rows_entries(rows@.take(i + 1)));
        i = i + 1;
    }
    assert(rows@.take(rows@.len() as int) =~= rows@);
}

fn walk_statement(s: &Statement, entries: &mut Vec<(Span, u32)>)
    ensures
        final(entries)@ == old(entries)@ + stmt_entries(*s),
    decreases s,
{
    let ghost e0 = entries@;
    match s {
        Statement::Select(q) => {
            walk_select(q, entries);
        },
        Statement::Insert { table, source, .. } => {
            push_entry(entries, table.span, TYPE_CLASS);
            match source {
                InsertSource::Values(rows) => {
                    walk_rows(rows, entries);
                },
                InsertSource::Select(q) => {
                    walk_select(q, entries);
                },
                InsertSource::DefaultValues => {},
            }
        },
        Statement::Update { table, assignments, from_clause, where_clause, .. } => {
            walk_table_reference(table, entries);
            walk_expressions(assignments, entries);
            walk_from(from_clause, entries);
            walk_opt(where_clause, entries);
        },
        Statement::Delete { table, from_clause, where_clause, .. } => {
            push_entry(entries, table.span, TYPE_CLASS);
            walk_from(from_clause, entries);
            walk_opt(where_clause, entries);
        },
        Statement::If { condition, then_branch, else_branch, .. } => {
            walk_expression(condition, entries);
            walk_statement(then_branch, entries);
            match else_branch {
                Some(e) => {
                    walk_statement(e, entries);
                },
                None => {},
            }
        },
        Statement::While { condition, body, .. } => {
            walk_expression(condition, entries);
            walk_statement(body, entries);
        },
        Statement::Block(b) => {
            walk_statements(&b.statements, entries);
        },
        Statement::TryCatch { try_block, catch_block, .. } => {
            walk_statements(&try_block.statements, entries);
            walk_statements(&catch_block.statements, entries);
        },
        Statement::Other { expressions, .. } => {
            walk_expressions(expressions, entries);
        },
        _ => {},
    }
    assert(entries@ =~= e0 + stmt_entries(*s));
}

fn walk_statements(ss: &Vec<Statement>, entries: &mut Vec<(Span, u32)>)
    ensures
        final(entries)@ == old(entries)@ + stmts_entries(ss@),
    decreases ss,
{
    let ghost e0 = entries@;
    let mut i: usize = 0;
    assert(ss@.take(0) =~= Seq::<Statement>::empty());
    assert(entries@ =~= e0 + stmts_entries(ss@.take(0)));
    while i < ss.len()
        invariant
            i <= ss@.len(),
            entries@ == e0 + stmts_entries(ss@.take(i as int)),
        decreases ss@.len() - i,
    {
        assert(ss@.take(i + 1).drop_last() =~= ss@.take(i as int));
        walk_statement(&ss[i], entries);
        assert(entries@ =~= e0 + stmts_entries(ss@.take(i + 1)));
        i = i + 1;
    }
    assert(ss@.take(ss@.len() as int) =~= ss@);
}

/// Index of the first entry starting at `start`.
pub open spec fn first_with_start(s: Seq<(Span, u32)>, start: u32) -> Option<int>
    decreases s.len(),
{
    if s.len() == 0 {
        None
    } else {
        match first_with_start(s.drop_last(), start) {
            Some(i) => Some(i),
            None => if s.last().0.start == start {
                Some(s.len() - 1)
            } else {
                None
            },
        }
    }
}

/// The class the AST gives a token span: that of the first entry starting
/// where the span starts, provided that entry's span is exactly the token's.
pub open spec fn index_lookup(s: Seq<(Span, u32)>, sp: Span) -> Option<u32> {
    match first_with_start(s, sp.start) {
        Some(i) => if s[i].0 == sp {
            Some(s[i].1)
        } else {
            None
        },
        None => None,
    }
}

/// Classes of identifier spans found in the statement tree: table sources
/// and the targets of data changes as classes, function call names as
/// functions.
pub struct SemanticSpanIndex {
    entries: Vec<(Span, u32)>,
}

impl View for SemanticSpanIndex {
    type V = Seq<(Span, u32)>;

    closed spec fn view(&self) -> Seq<(Span, u32)> {
        self.entries@
    }
}

impl SemanticSpanIndex {
    /// Walk the statements of an analysis once and collect the classified
    /// spans, in source order of the tree walk.
    pub fn build(analysis: &DocumentAnalysis) -> (r: SemanticSpanIndex)
        ensures
            r@ == stmts_entries(analysis.statements@),
    {
        let mut entries: Vec<(Span, u32)> = Vec::new();
        walk_statements(&analysis.statements, &mut entries);
        assert(entries@ =~= stmts_entries(analysis.statements@));
        SemanticSpanIndex { entries }
    }

    /// The class of a token span (see [`index_lookup`]).
    pub fn lookup(&self, sp: Span) -> (r: Option<u32>)
        ensures
            r == index_lookup(self@, sp),
    {
        let mut i: usize = 0;
        let ghost s = self.entries@;
        while i < self.entries.len()
            invariant
                s == self.entries@,
                i <= s.len(),
                first_with_start(s.take(i as int), sp.start) is None,
            decreases s.len() - i,
        {
            assert(s.take(i + 1).drop_last() =~= s.take(i as int));
            if self.entries[i].0.start == sp.start {
                assert(first_with_start(s.take(i + 1), sp.start) == Some(i as int));
                proof {
                    lemma_first_with_start_prefix(s, i as int + 1, sp.start);
                }
                let (e, ty) = self.entries[i];
                if e.start == sp.start && e.end == sp.end {
                    return Some(ty);
                } else {
                    return None;
                }
            }
            i = i + 1;
        }
        assert(s.take(s.len() as int) =~= s);
        None
    }
}

proof fn lemma_first_with_start_prefix(s: Seq<(Span, u32)>, n: int, start: u32)
    requires
        0 <= n <= s.len(),
        first_with_start(s.take(n), start) is Some,
    ensures
        first_with_start(s, start) == first_with_start(s.take(n), start),
    decreases s.len() - n,
{
    if n < s.len() {
        assert(s.take(n + 1).drop_last() =~= s.take(n));
        lemma_first_with_start_prefix(s, n + 1, start);
    } else {
        assert(s.take(n) =~= s);
    }
}

/// The class of a token: from its kind; else from the statement tree; else,
/// for an identifier, from the symbol table's definitions.
pub open spec fn token_type(a: &DocumentAnalysis, idx: Seq<(Span, u32)>, t: OwnedToken) -> Option<u32> {
    match kind_type(t.kind) {
        Some(ty) => Some(ty),
        None => match index_lookup(idx, t.span) {
            Some(ty) => Some(ty),
            None => if t.kind == TokenKind::Ident {
                semantic_type_of(&a.symbol_table, t.text@)
            } else {
                None
            },
        },
    }
}

/// The class of a token (see [`token_type`]).
pub fn resolve_token_type(analysis: &DocumentAnalysis, span_index: &SemanticSpanIndex, token: &OwnedToken) -> (r: Option<u32>)
    ensures
        r == token_type(analysis, span_index@, *token),
{
    match token_kind_to_type_index(token.kind) {
        Some(ty) => Some(ty),
        None => match span_index.lookup(token.span) {
            Some(ty) => Some(ty),
            None => if matches!(token.kind, TokenKind::Ident) {
                analysis.symbol_table.resolve_semantic_type(token.text.as_str())
            } else {
                None
            },
        },
    }
}

/// A delta-encoded token: line relative to the previous token's line, start
/// relative to the previous token's start when on the same line.
#[derive(Debug, Clone, Copy, PartialEq, Eq, Structural)]
pub struct SemanticToken {
    /// Lines after the previous token's line.
    pub delta_line: u32,
    /// Start, relative to the previous token's start on the same line.
    pub delta_start: u32,
    /// Length in bytes.
    pub length: u32,
    /// Class index.
    pub token_type: u32,
    /// Modifier bits (none are used).
    pub token_modifiers_bitset: u32,
}

/// The encoding of a token at `(line, character)` after one at `prev`.
pub open spec fn delta_token(prev: (u32, u32), line: u32, character: u32, length: u32, ty: u32) -> SemanticToken {
    let dl = if line >= prev.0 { (line - prev.0) as u32 } else { 0u32 };
    SemanticToken {
        delta_line: dl,
        delta_start: if dl == 0 {
            if character >= prev.1 { (character - prev.1) as u32 } else { 0u32 }
        } else {
            character
        },
        length,
        token_type: ty,
        token_modifiers_bitset: 0,
    }
}

/// Encoder state: the position of the previous token.
pub struct DeltaEncoder {
    /// Line of the previous token.
    pub prev_line: u32,
    /// Start of the previous token.
    pub prev_char: u32,
}

impl DeltaEncoder {
    /// An encoder before any token: the previous position is (0, 0).
    pub fn new() -> (e: DeltaEncoder)
        ensures
            e.prev_line == 0,
            e.prev_char == 0,
    {
        DeltaEncoder { prev_line: 0, prev_char: 0 }
    }

    /// Append the encoding of a token at `(line, character)` and make it the
    /// previous token. Differences that would be negative are zero.
    pub fn push(&mut self, tokens: &mut Vec<SemanticToken>, line: u32, character: u32, length: u32, token_type: u32)
        ensures
            final(tokens)@ == old(tokens)@.push(
                delta_token((old(self).prev_line, old(self).prev_char), line, character, length, token_type),
            ),
            final(self).prev_line == line,
            final(self).prev_char == character,
    {
        let delta_line = if line >= self.prev_line { line - self.prev_line } else { 0 };
        let delta_start = if delta_line == 0 {
            if character >= self.prev_char { character - self.prev_char } else { 0 }
        } else {
            character
        };
        tokens.push(SemanticToken { delta_line, delta_start, length, token_type, token_modifiers_bitset: 0 });
        self.prev_line = line;
        self.prev_char = character;
    }
}

/// The absolute position that an encoded token gives after the token at
/// `prev`.
pub open spec fn decoded_position(prev: (u32, u32), t: SemanticToken) -> (int, int) {
    if t.delta_line == 0 {
        (prev.0 as int, prev.1 + t.delta_start)
    } else {
        (prev.0 + t.delta_line, t.delta_start as int)
    }
}

/// For tokens in document order, the delta encoding loses nothing: decoding
/// a token's encoding after the previous token's position gives its
/// position, length and class back.
pub proof fn law_delta_encoding_roundtrip(prev: (u32, u32), line: u32, character: u32, length: u32, ty: u32)
    requires
        prev.0 < line || (prev.0 == line && prev.1 <= character),
    ensures
        decoded_position(prev, delta_token(prev, line, character, length, ty)) == (line as int, character as int),
        delta_token(prev, line, character, length, ty).length == length,
        delta_token(prev, line, character, length, ty).token_type == ty,
{
}

/// The position of the last of `items` (line, character, length, class),
/// or (0, 0) before any.
pub open spec fn last_position(items: Seq<(u32, u32, u32, u32)>) -> (u32, u32) {
    if items.len() == 0 {
        (0u32, 0u32)
    } else {
        (items.last().0, items.last().1)
    }
}

/// The encodings of `items` pushed in order into a new encoder.
pub open spec fn encode_all(items: Seq<(u32, u32, u32, u32)>) -> Seq<SemanticToken>
    decreases items.len(),
{
    if items.len() == 0 {
        Seq::empty()
    } else {
        let p = items.drop_last();
        let it = items.last();
        encode_all(p).push(delta_token(last_position(p), it.0, it.1, it.2, it.3))
    }
}

/// The absolute positions of encoded tokens: each decoded after the one
/// before it, the first after (0, 0).
pub open spec fn decode_all(toks: Seq<SemanticToken>) -> Seq<(int, int)>
    decreases toks.len(),
{
    if toks.len() == 0 {
        Seq::empty()
    } else {
        let d = decode_all(toks.drop_last());
        let prev: (u32, u32) = if d.len() == 0 { (0u32, 0u32) } else { (d.last().0 as u32, d.last().1 as u32) };
        d.push(decoded_position(prev, toks.last()))
    }
}

/// Positions in document order: each at or after the one before it.
pub open spec fn in_document_order(items: Seq<(u32, u32, u32, u32)>) -> bool {
    forall|i: int|
        0 < i < items.len() ==> items[i - 1].0 < #[trigger] items[i].0 || (items[i - 1].0 == items[i].0 && items[
            i - 1].1 <= items[i].1)
}

/// Pushing tokens in document order into a new encoder gives one encoded
/// token each, with its length, its class and no modifier, and decoding
/// the encoded tokens by prefix sums gives every position back.
pub proof fn law_delta_encoding_of_a_document(items: Seq<(u32, u32, u32, u32)>)
    requires
        in_document_order(items),
    ensures
        encode_all(items).len() == items.len(),
        forall|i: int| 0 <= i < items.len() ==> (#[trigger] encode_all(items)[i]).length == items[i].2
            && encode_all(items)[i].token_type == items[i].3 && encode_all(items)[i].token_modifiers_bitset == 0,
        decode_all(encode_all(items)) == items.map_values(|it: (u32, u32, u32, u32)| (it.0 as int, it.1 as int)),
    decreases items.len(),
{
    if items.len() > 0 {
        let p = items.drop_last();
        let it = items.last();
        assert(in_document_order(p)) by {
            assert forall|i: int| 0 < i < p.len() implies p[i - 1].0 < #[trigger] p[i].0 || (p[i - 1].0 == p[i].0
                && p[i - 1].1 <= p[i].1) by {
                assert(p[i] == items[i] && p[i - 1] == items[i - 1]);
            }
        }
        law_delta_encoding_of_a_document(p);
        let e = encode_all(items);
        assert(e.drop_last() =~= encode_all(p));
        law_delta_encoding_roundtrip(last_position(p), it.0, it.1, it.2, it.3);
        if p.len() > 0 {
            assert(items[items.len() - 1] == it);
            assert(items[items.len() - 2] == p.last());
        }
        let dp = decode_all(encode_all(p));
        assert(dp.len() == p.len());
        if p.len() > 0 {
            assert(dp.last() == (p.last().0 as int, p.last().1 as int));
        }
        assert(decode_all(e) =~= items.map_values(|it: (u32, u32, u32, u32)| (it.0 as int, it.1 as int)));
    }
}

/// Length of a span in bytes; zero when reversed.
pub open spec fn span_len(sp: Span) -> u32 {
    if sp.end >= sp.start {
        (sp.end - sp.start) as u32
    } else {
        0u32
    }
}

/// Whether position `p` comes before position `q`.
pub open spec fn pos_before(p: Position, q: Position) -> bool {
    p.line < q.line || (p.line == q.line && p.character < q.character)
}

/// The encoded tokens among the first `n` tokens that `keep` admits, and
/// the position of the last one encoded.
pub open spec fn encode_upto(
    a: &DocumentAnalysis,
    idx: Seq<(Span, u32)>,
    lo: Option<Position>,
    n: int,
) -> (Seq<SemanticToken>, (u32, u32))
    decreases n,
{
    if n <= 0 {
        (Seq::empty(), (0u32, 0u32))
    } else {
        let prev = encode_upto(a, idx, lo, n - 1);
        let t = a.tokens@[n - 1];
        let p = position_at(a.line_index@, t.span.start as int);
        let skipped = match lo {
            Some(start) => pos_before(p, start),
            None => false,
        };
        match token_type(a, idx, t) {
            Some(ty) => if skipped {
                prev
            } else {
                (prev.0.push(delta_token(prev.1, p.line, p.character, span_len(t.span), ty)), (p.line, p.character))
            },
            None => prev,
        }
    }
}

/// Encoded semantic tokens.
pub struct SemanticTokens {
    /// Result identifier (never set).
    pub result_id: Option<String>,
    /// Encoded tokens.
    pub data: Vec<SemanticToken>,
}

/// Semantic tokens of a whole document: every classified token, in order,
/// delta-encoded.
pub fn semantic_tokens_full_with_analysis(analysis: &DocumentAnalysis) -> (r: SemanticTokens)
    ensures
        r.result_id is None,
        r.data@ == encode_upto(
            analysis,
            stmts_entries(analysis.statements@),
            None,
            analysis.tokens@.len() as int,
        ).0,
{
    let mut tokens: Vec<SemanticToken> = Vec::new();
    let mut encoder = DeltaEncoder::new();
    let span_index = SemanticSpanIndex::build(analysis);
    let ghost idx = span_index@;
    let mut i: usize = 0;
    while i < analysis.tokens.len()
        invariant
            i <= analysis.tokens@.len(),
            idx == span_index@,
            idx == stmts_entries(analysis.statements@),
            tokens@ == encode_upto(analysis, idx, None, i as int).0,
            (encoder.prev_line, encoder.prev_char) == encode_upto(analysis, idx, None, i as int).1,
        decreases analysis.tokens@.len() - i,
    {
        let token = &analysis.tokens[i];
        match resolve_token_type(analysis, &span_index, token) {
            Some(ty) => {
                let (line, character) = analysis.line_index.offset_to_position(token.span.start);
                encoder.push(&mut tokens, line, character, token.span.len(), ty);
            },
            None => {},
        }
        i = i + 1;
    }
    SemanticTokens { result_id: None, data: tokens }
}

/// Number of tokens looked at for a range: those before the first token
/// positioned after the range's end.
pub open spec fn range_count(a: &DocumentAnalysis, end: Position, n: int) -> int
    decreases n,
{
    if n <= 0 {
        0
    } else {
        let k = range_count(a, end, n - 1);
        if k == n - 1 && !pos_before(end, position_at(a.line_index@, a.tokens@[n - 1].span.start as int)) {
            n
        } else {
            k
        }
    }
}

proof fn lemma_range_count(a: &DocumentAnalysis, end: Position, n: int)
    requires
        0 <= n,
    ensures
        0 <= range_count(a, end, n) <= n,
        forall|i: int| 0 <= i < range_count(a, end, n) ==> !pos_before(end, position_at(a.line_index@, #[trigger] a.tokens@[i].span.start as int)),
        range_count(a, end, n) < n ==> pos_before(end, position_at(a.line_index@, a.tokens@[range_count(a, end, n)].span.start as int)),
    decreases n,
{
    if n > 0 {
        lemma_range_count(a, end, n - 1);
    }
}

/// Semantic tokens of a range: the classified tokens positioned from the
/// range's start up to its end (both included), delta-encoded; scanning stops
/// at the first token positioned after the end.
pub fn semantic_tokens_range_with_analysis(analysis: &DocumentAnalysis, range: Range) -> (r: SemanticTokens)
    ensures
        r.result_id is None,
        r.data@ == encode_upto(
            analysis,
            stmts_entries(analysis.statements@),
            Some(range.start),
            range_count(analysis, range.end, analysis.tokens@.len() as int),
        ).0,
{
    let mut tokens: Vec<SemanticToken> = Vec::new();
    let mut encoder = DeltaEncoder::new();
    let span_index = SemanticSpanIndex::build(analysis);
    let ghost idx = span_index@;
    let ghost n = analysis.tokens@.len() as int;
    let mut i: usize = 0;
    proof {
        lemma_range_count(analysis, range.end, n);
    }
    while i < analysis.tokens.len()
        invariant_except_break
            i <= analysis.tokens@.len(),
            n == analysis.tokens@.len(),
            idx == span_index@,
            idx == stmts_entries(analysis.statements@),
            forall|k: int| 0 <= k < i ==> !pos_before(range.end, position_at(analysis.line_index@, #[trigger] analysis.tokens@[k].span.start as int)),
            0 <= range_count(analysis, range.end, n) <= n,
            range_count(analysis, range.end, n) < n ==> pos_before(range.end, position_at(analysis.line_index@,
                analysis.tokens@[range_count(analysis, range.end, n)].span.start as int)),
            tokens@ == encode_upto(analysis, idx, Some(range.start), i as int).0,
            (encoder.prev_line, encoder.prev_char) == encode_upto(analysis, idx, Some(range.start), i as int).1,
        ensures
            i == range_count(analysis, range.end, n),
            tokens@ == encode_upto(analysis, idx, Some(range.start), i as int).0,
        decreases analysis.tokens@.len() - i,
    {
        let token = &analysis.tokens[i];
        let (line, character) = analysis.line_index.offset_to_position(token.span.start);
        let ghost p = position_at(analysis.line_index@, token.span.start as int);
        assert(p == Position { line, character });
        if line > range.end.line || (line == range.end.line && character > range.end.character) {
            proof {
                lemma_range_count(analysis, range.end, n);
                let c = range_count(analysis, range.end, n);
                assert(pos_before(range.end, p));
                if c < i {
                    assert(!pos_before(range.end, position_at(analysis.line_index@, analysis.tokens@[c].span.start as int)));
                } else if c > i {
                    assert(!pos_before(range.end, position_at(analysis.line_index@, analysis.tokens@[i as int].span.start as int)));
                }
            }
            break;
        }
        let skip = line < range.start.line || (line == range.start.line && character < range.start.character);
        match resolve_token_type(analysis, &span_index, token) {
            Some(ty) => {
                if !skip {
                    encoder.push(&mut tokens, line, character, token.span.len(), ty);
                }
            },
            None => {},
        }
        i = i + 1;
    }
    proof {
        if i == n {
            let c = range_count(analysis, range.end, n);
            if c < n {
                assert(!pos_before(range.end, position_at(analysis.line_index@, analysis.tokens@[c].span.start as int)));
            }
        }
    }
    SemanticTokens { result_id: None, data: tokens }
}

} // verus!
