//! Diagnostics: parse errors, and a warning for every `SELECT *`.

use crate::analysis::{tokens_sorted, DocumentAnalysis};
use crate::ast::{CreateStatement, InsertSource, ParseError, SelectItem, SelectStatement, Statement, TableReference, Join};
use crate::config::Severity;
use crate::line_index::{range_at, LineIndex};
use crate::position::{Position, Range};
use crate::token::{Span, OwnedToken, TokenKind};
use vstd::prelude::*;
use vstd::string::*;

verus! {

/// A diagnostic as the editor shows it.
pub struct Diagnostic {
    /// Range of the offending text.
    pub range: Range,
    /// Severity.
    pub severity: Option<Severity>,
    /// Producer of the diagnostic.
    pub source: Option<String>,
    /// Message.
    pub message: String,
}

/// Content of a [`Diagnostic`].
pub struct DiagnosticView {
    /// Range of the offending text.
    pub range: Range,
    /// Severity.
    pub severity: Option<Severity>,
    /// Producer of the diagnostic.
    pub source: Option<Seq<char>>,
    /// Message.
    pub message: Seq<char>,
}

impl View for Diagnostic {
    type V = DiagnosticView;

    open spec fn view(&self) -> DiagnosticView {
        DiagnosticView {
            range: self.range,
            severity: self.severity,
            source: match self.source {
                Some(s) => Some(s@),
                None => None,
            },
            message: self.message@,
        }
    }
}

/// The contents of a sequence of diagnostics.
pub open spec fn diagnostics_view(v: Seq<Diagnostic>) -> Seq<DiagnosticView> {
    v.map_values(|d: Diagnostic| d@)
}

/// Producer name carried by every diagnostic.
pub open spec fn diagnostic_source() -> Seq<char> {
    "ase-ls"@
}

/// Message of the `SELECT *` warning.
pub open spec fn star_message() -> Seq<char> {
    "SELECT *: consider specifying explicit columns for better performance and maintainability"@
}

/// The span of a SELECT once per `*` item of its list.
pub open spec fn wildcard_spans(items: Seq<SelectItem>, sp: Span) -> Seq<Span>
    decreases items.len(),
{
    if items.len() == 0 {
        Seq::empty()
    } else {
        wildcard_spans(items.drop_last(), sp) + match items.last() {
            SelectItem::Wildcard => seq![sp],
            _ => Seq::empty(),
        }
    }
}

/// Spans of the SELECTs with `*` in a query: the query itself, once per
/// `*`, then the derived tables of its comma-separated table sources.
pub open spec fn select_star_spans(q: SelectStatement) -> Seq<Span>
    decreases q,
{
    wildcard_spans(q.columns@, q.span) + match q.from {
        Some(f) => trefs_star_spans(f.tables@),
        None => Seq::empty(),
    }
}

/// Spans of the SELECTs with `*` in a table source: a derived table's query,
/// or those of a join tree's joins.
pub open spec fn tref_star_spans(tr: TableReference) -> Seq<Span>
    decreases tr,
{
    match tr {
        TableReference::Subquery { query, .. } => select_star_spans(*query),
        TableReference::Joined { joins } => joins_star_spans(joins@),
        TableReference::Table { .. } => Seq::empty(),
    }
}

/// Spans of the SELECTs with `*` in joins, in order.
pub open spec fn joins_star_spans(js: Seq<Join>) -> Seq<Span>
    decreases js,
{
    if js.len() == 0 {
        Seq::empty()
    } else {
        joins_star_spans(js.drop_last()) + tref_star_spans(js.last().table)
    }
}

/// Spans of the SELECTs with `*` in table sources, in order.
pub open spec fn trefs_star_spans(rs: Seq<TableReference>) -> Seq<Span>
    decreases rs,
{
    if rs.len() == 0 {
        Seq::empty()
    } else {
        trefs_star_spans(rs.drop_last()) + tref_star_spans(rs.last())
    }
}

/// Spans of the SELECTs with `*` in a statement: SELECTs, the query of an
/// `INSERT ... SELECT`, the table sources of an UPDATE, nested blocks,
/// procedure and trigger bodies, and view queries.
pub open spec fn stmt_star_spans(s: Statement) -> Seq<Span>
    decreases s,
{
    match s {
        Statement::Select(q) => select_star_spans(*q),
        Statement::Insert { source, .. } => match source {
            InsertSource::Select(q) => select_star_spans(*q),
            _ => Seq::empty(),
        },
        Statement::Update { table, from_clause, .. } => tref_star_spans(table) + match from_clause {
            Some(f) => trefs_star_spans(f.tables@),
            None => Seq::empty(),
        },
        Statement::If { then_branch, else_branch, .. } => stmt_star_spans(*then_branch) + match else_branch {
            Some(e) => stmt_star_spans(*e),
            None => Seq::empty(),
        },
        Statement::While { body, .. } => stmt_star_spans(*body),
        Statement::Block(b) => stmts_star_spans(b.statements@),
        Statement::TryCatch { try_block, catch_block, .. } => stmts_star_spans(try_block.statements@)
            + stmts_star_spans(catch_block.statements@),
        Statement::Create(c) => match *c {
            CreateStatement::Procedure(pd) => stmts_star_spans(pd.body@),
            CreateStatement::View(vd) => select_star_spans(vd.query),
            CreateStatement::Trigger(tr) => stmts_star_spans(tr.body@),
            _ => Seq::empty(),
        },
        _ => Seq::empty(),
    }
}

/// Spans of the SELECTs with `*` in statements, in order.
pub open spec fn stmts_star_spans(ss: Seq<Statement>) -> Seq<Span>
    decreases ss,
{
    if ss.len() == 0 {
        Seq::empty()
    } else {
        stmts_star_spans(ss.drop_last()) + stmt_star_spans(ss.last())
    }
}

fn push_wildcard_spans(items: &Vec<SelectItem>, sp: Span, out: &mut Vec<Span>)
    ensures
        final(out)@ == old(out)@ + wildcard_spans(items@, sp),
{
    let ghost o = out@;
    let mut i: usize = 0;
    assert(items@.take(0) =~= Seq::<SelectItem>::empty());
    assert(out@ =~= o + wildcard_spans(items@.take(0), sp));
    while i < items.len()
        invariant
            i <= items@.len(),
            out@ == o + wildcard_spans(items@.take(i as int), sp),
        decreases items@.len() - i,
    {
        assert(items@.take(i + 1).drop_last() =~= items@.take(i as int));
        match &items[i] {
            SelectItem::Wildcard => {
                out.push(sp);
            },
            _ => {},
        }
        assert(out@ =~= o + wildcard_spans(items@.take(i + 1), sp));
        i = i + 1;
    }
    assert(items@.take(items@.len() as int) =~= items@);
}

fn walk_select(q: &SelectStatement, out: &mut Vec<Span>)
    ensures
        final(out)@ == old(out)@ + select_star_spans(*q),
    decreases q,
{
    let ghost o = out@;
    push_wildcard_spans(&q.columns, q.span, out);
    match &q.from {
        Some(f) => {
            walk_trefs(&f.tables, out);
        },
        None => {},
    }
    assert(out@ =~= o + select_star_spans(*q));
}

fn walk_tref(tr: &TableReference, out: &mut Vec<Span>)
    ensures
        final(out)@ == old(out)@ + tref_star_spans(*tr),
    decreases tr,
{
    let ghost o = out@;
    match tr {
        TableReference::Subquery { query, .. } => {
            walk_select(query, out);
        },
        TableReference::Joined { joins } => {
            walk_joins(joins, out);
        },
        TableReference::Table { .. } => {},
    }
    assert(out@ =~= o + tref_star_spans(*tr));
}

fn walk_joins(js: &Vec<Join>, out: &mut Vec<Span>)
    ensures
        final(out)@ == old(out)@ + joins_star_spans(js@),
    decreases js,
{
    let ghost o = out@;
    let mut i: usize = 0;
    assert(js@.take(0) =~= Seq::<Join>::empty());
    assert(out@ =~= o + joins_star_spans(js@.take(0)));
    while i < js.len()
        invariant
            i <= js@.len(),
            out@ == o + joins_star_spans(js@.take(i as int)),
        decreases js@.len() - i,
    {
        assert(js@.take(i + 1).drop_last() =~= js@.take(i as int));
        walk_tref(&js[i].table, out);
        assert(out@ =~= o + joins_star_spans(js@.take(i + 1)));
        i = i + 1;
    }
    assert(js@.take(js@.len() as int) =~= js@);
}

fn walk_trefs(rs: &Vec<TableReference>, out: &mut Vec<Span>)
    ensures
        final(out)@ == old(out)@ + trefs_star_spans(rs@),
    decreases rs,
{
    let ghost o = out@;
    let mut i: usize = 0;
    assert(rs@.take(0) =~= Seq::<TableReference>::empty());
    assert(out@ =~= o + trefs_star_spans(rs@.take(0)));
    while i < rs.len()
        invariant
            i <= rs@.len(),
            out@ == o + trefs_star_spans(rs@.take(i as int)),
        decreases rs@.len() - i,
    {
        assert(rs@.take(i + 1).drop_last() =~= rs@.take(i as int));
        walk_tref(&rs[i], out);
        assert(out@ =~= o + trefs_star_spans(rs@.take(i + 1)));
        i = i + 1;
    }
    assert(rs@.take(rs@.len() as int) =~= rs@);
}

fn walk_statement(s: &Statement, out: &mut Vec<Span>)
    ensures
        final(out)@ == old(out)@ + stmt_star_spans(*s),
    decreases s,
{
    let ghost o = out@;
    match s {
        Statement::Select(q) => {
            walk_select(q, out);
        },
        Statement::Insert { source, .. } => {
            match source {
                InsertSource::Select(q) => {
                    walk_select(q, out);
                },
                _ => {},
            }
        },
        Statement::Update { table, from_clause, .. } => {
            walk_tref(table, out);
            match from_clause {
                Some(f) => {
                    walk_trefs(&f.tables, out);
                },
                None => {},
            }
        },
        Statement::If { then_branch, else_branch, .. } => {
            walk_statement(then_branch, out);
            match else_branch {
                Some(e) => {
                    walk_statement(e, out);
                },
                None => {},
            }
        },
        Statement::While { body, .. } => {
            walk_statement(body, out);
        },
        Statement::Block(b) => {
            walk_statements(&b.statements, out);
        },
        Statement::TryCatch { try_block, catch_block, .. } => {
            walk_statements(&try_block.statements, out);
            walk_statements(&catch_block.statements, out);
        },
        Statement::Create(c) => {
            match &**c {
                CreateStatement::Procedure(pd) => {
                    walk_statements(&pd.body, out);
                },
                CreateStatement::View(vd) => {
                    walk_select(&vd.query, out);
                },
                CreateStatement::Trigger(tr) => {
                    walk_statements(&tr.body, out);
                },
                _ => {},
            }
        },
        _ => {},
    }
    assert(out@ =~= o + stmt_star_spans(*s));
}

fn walk_statements(ss: &Vec<Statement>, out: &mut Vec<Span>)
    ensures
        final(out)@ == old(out)@ + stmts_star_spans(ss@),
    decreases ss,
{
    let ghost o = out@;
    let mut i: usize = 0;
    assert(ss@.take(0) =~= Seq::<Statement>::empty());
    assert(out@ =~= o + stmts_star_spans(ss@.take(0)));
    while i < ss.len()
        invariant
            i <= ss@.len(),
            out@ == o + stmts_star_spans(ss@.take(i as int)),
        decreases ss@.len() - i,
    {
        assert(ss@.take(i + 1).drop_last() =~= ss@.take(i as int));
        walk_statement(&ss[i], out);
        assert(out@ =~= o + stmts_star_spans(ss@.take(i + 1)));
        i = i + 1;
    }
    assert(ss@.take(ss@.len() as int) =~= ss@);
}

/// Number of leading tokens that start before `s`.
pub open spec fn lead_count(ts: Seq<OwnedToken>, s: u32) -> int
    decreases ts.len(),
{
    if ts.len() == 0 {
        0
    } else {
        let k = lead_count(ts.drop_last(), s);
        if k == ts.len() - 1 && ts.last().span.start < s {
            ts.len() as int
        } else {
            k
        }
    }
}

proof fn lemma_lead_count(ts: Seq<OwnedToken>, s: u32)
    ensures
        0 <= lead_count(ts, s) <= ts.len(),
        forall|i: int| 0 <= i < lead_count(ts, s) ==> ts[i].span.start < s,
        lead_count(ts, s) < ts.len() ==> ts[lead_count(ts, s)].span.start >= s,
    decreases ts.len(),
{
    if ts.len() > 0 {
        let p = ts.drop_last();
        lemma_lead_count(p, s);
        let k = lead_count(p, s);
        if k < p.len() {
            assert(ts[k] == p[k]);
        }
        assert forall|i: int| 0 <= i < lead_count(ts, s) && i < p.len() implies ts[i].span.start < s by {
            assert(ts[i] == p[i]);
        }
    }
}

/// With tokens in source order: the index of the first token starting at or
/// after `s`.
fn lower_bound(tokens: &Vec<OwnedToken>, s: u32) -> (p: usize)
    ensures
        p <= tokens@.len(),
        tokens_sorted(tokens@) ==> p == lead_count(tokens@, s),
{
    let mut lo: usize = 0;
    let mut hi: usize = tokens.len();
    while lo < hi
        invariant
            lo <= hi <= tokens@.len(),
            tokens_sorted(tokens@) ==> forall|i: int| 0 <= i < lo ==> tokens@[i].span.start < s,
            tokens_sorted(tokens@) ==> forall|i: int| hi <= i < tokens@.len() ==> tokens@[i].span.start >= s,
            lo > 0 ==> tokens@[lo - 1].span.start < s,
            hi < tokens@.len() ==> tokens@[hi as int].span.start >= s,
        decreases hi - lo,
    {
        let mid = lo + (hi - lo) / 2;
        if tokens[mid].span.start < s {
            lo = mid + 1;
        } else {
            hi = mid;
        }
    }
    proof {
        lemma_lead_count(tokens@, s);
        if tokens_sorted(tokens@) {
            let c = lead_count(tokens@, s);
            if c < lo {
                assert(tokens@[c].span.start < s);
            } else if c > lo {
                assert(tokens@[lo as int].span.start < s);
            }
        }
    }
    lo
}

/// Where the search for `*` stops: the end of the SELECT's span, or 200
/// bytes past its start when the span is empty or reversed.
pub open spec fn scan_end(sp: Span) -> u32 {
    if sp.end <= sp.start {
        if sp.start as int + 200 <= u32::MAX {
            (sp.start + 200) as u32
        } else {
            u32::MAX
        }
    } else {
        sp.end
    }
}

/// Tokens that may stand between SELECT and `*`.
pub open spec fn star_prefix_kind(k: TokenKind) -> bool {
    k == TokenKind::Comma || k == TokenKind::Distinct || k == TokenKind::All || k == TokenKind::Top
        || k == TokenKind::Number || k == TokenKind::Ident
}

/// Index of the `*` found from token `k` on: a `*` right after SELECT (with
/// only commas, DISTINCT, ALL, TOP, numbers and identifiers between), before
/// a token that starts after `end`.
pub open spec fn star_from(ts: Seq<OwnedToken>, k: int, end: u32, found: bool) -> Option<int>
    decreases ts.len() - k,
{
    if k >= ts.len() || k < 0 {
        None
    } else {
        let t = ts[k];
        if t.span.start > end {
            None
        } else if t.kind == TokenKind::Select {
            star_from(ts, k + 1, end, true)
        } else if found && t.kind == TokenKind::Star {
            Some(k)
        } else if found && !star_prefix_kind(t.kind) {
            star_from(ts, k + 1, end, false)
        } else {
            star_from(ts, k + 1, end, found)
        }
    }
}

/// Index of the `*` of `SELECT *` within a SELECT's span.
pub open spec fn star_token(ts: Seq<OwnedToken>, sp: Span) -> Option<int> {
    star_from(ts, lead_count(ts, sp.start), scan_end(sp), false)
}

fn find_star_token_after_select(tokens: &Vec<OwnedToken>, select_span: Span) -> (r: Option<usize>)
    ensures
        r matches Some(i) ==> i < tokens@.len() && tokens@[i as int].kind == TokenKind::Star,
        tokens_sorted(tokens@) ==> match r {
            Some(i) => star_token(tokens@, select_span) == Some(i as int),
            None => star_token(tokens@, select_span) is None,
        },
{
    let select_end: u32 = if select_span.end <= select_span.start {
        if select_span.start <= u32::MAX - 200 {
            select_span.start + 200
        } else {
            u32::MAX
        }
    } else {
        select_span.end
    };
    let start = lower_bound(tokens, select_span.start);
    let ghost ts = tokens@;
    let mut found = false;
    let mut k = start;
    while k < tokens.len()
        invariant
            ts == tokens@,
            start <= k <= ts.len(),
            select_end == scan_end(select_span),
            tokens_sorted(ts) ==> start == lead_count(ts, select_span.start),
            star_from(ts, start as int, select_end, false) == star_from(ts, k as int, select_end, found),
        decreases ts.len() - k,
    {
        let t = &tokens[k];
        if t.span.start > select_end {
            return None;
        }
        if matches!(t.kind, TokenKind::Select) {
            found = true;
        } else if found && matches!(t.kind, TokenKind::Star) {
            return Some(k);
        } else if found && !(matches!(t.kind, TokenKind::Comma) || matches!(t.kind, TokenKind::Distinct)
            || matches!(t.kind, TokenKind::All) || matches!(t.kind, TokenKind::Top)
            || matches!(t.kind, TokenKind::Number) || matches!(t.kind, TokenKind::Ident)) {
            found = false;
        }
        k = k + 1;
    }
    None
}

/// End offset used for a one-token range: the token's end, or one past its
/// start when that is later (wrapping at the top of the range).
pub open spec fn min_one_end(sp: Span) -> u32 {
    let one = if sp.start < u32::MAX { (sp.start + 1) as u32 } else { 0u32 };
    if sp.end >= one { sp.end } else { one }
}

/// The `SELECT *` warning of the SELECT spanning `sp`, on its `*` token.
pub open spec fn star_diagnostic(a: &DocumentAnalysis, sp: Span) -> Option<DiagnosticView> {
    match star_token(a.tokens@, sp) {
        Some(i) => {
            let t = a.tokens@[i].span;
            Some(DiagnosticView {
                range: range_at(a.line_index@, t.start as int, min_one_end(t) as int),
                severity: Some(Severity::Warning),
                source: Some(diagnostic_source()),
                message: star_message(),
            })
        },
        None => None,
    }
}

fn make_star_diagnostic(analysis: &DocumentAnalysis, select_span: Span) -> (r: Option<Diagnostic>)
    ensures
        tokens_sorted(analysis.tokens@) ==> match r {
            Some(d) => star_diagnostic(analysis, select_span) == Some(d@),
            None => star_diagnostic(analysis, select_span) is None,
        },
{
    let i = match find_star_token_after_select(&analysis.tokens, select_span) {
        Some(i) => i,
        None => return None,
    };
    let sp = analysis.tokens[i].span;
    let one: u32 = if sp.start < u32::MAX { sp.start + 1 } else { 0 };
    let end: u32 = if sp.end >= one { sp.end } else { one };
    Some(Diagnostic {
        range: analysis.line_index.offset_to_range(sp.start, end),
        severity: Some(Severity::Warning),
        source: Some(String::from_str("ase-ls")),
        message: String::from_str("SELECT *: consider specifying explicit columns for better performance and maintainability"),
    })
}

/// The warnings of SELECT spans, in order, leaving out those whose `*` is
/// not found.
pub open spec fn star_diagnostics(a: &DocumentAnalysis, spans: Seq<Span>) -> Seq<DiagnosticView>
    decreases spans.len(),
{
    if spans.len() == 0 {
        Seq::empty()
    } else {
        star_diagnostics(a, spans.drop_last()) + match star_diagnostic(a, spans.last()) {
            Some(d) => seq![d],
            None => Seq::empty(),
        }
    }
}

/// The range of a parse error: its span (at least one byte long) when
/// known, otherwise one character at its one-based line and column.
pub open spec fn error_range_of(li: Seq<u32>, e: ParseError) -> Range {
    match e.span {
        Some(sp) => range_at(li, sp.start as int, min_one_end(sp) as int),
        None => {
            let line = if e.line > 0 { (e.line - 1) as u32 } else { 0u32 };
            let col = if e.column > 0 { (e.column - 1) as u32 } else { 0u32 };
            Range {
                start: Position { line, character: col },
                end: Position { line, character: (col + 1) as u32 },
            }
        },
    }
}

fn error_range(line_index: &LineIndex, error: &ParseError) -> (r: Range)
    ensures
        r == error_range_of(line_index@, *error),
{
    match error.span {
        Some(sp) => {
            let one: u32 = if sp.start < u32::MAX { sp.start + 1 } else { 0 };
            let end: u32 = if sp.end >= one { sp.end } else { one };
            line_index.offset_to_range(sp.start, end)
        },
        None => {
            let line = if error.line > 0 { error.line - 1 } else { 0 };
            let col = if error.column > 0 { error.column - 1 } else { 0 };
            Range { start: Position { line, character: col }, end: Position { line, character: col + 1 } }
        },
    }
}

/// The error diagnostic of a parse error.
pub open spec fn parse_error_diagnostic(li: Seq<u32>, e: ParseError) -> DiagnosticView {
    DiagnosticView {
        range: error_range_of(li, e),
        severity: Some(Severity::Error),
        source: Some(diagnostic_source()),
        message: e.message@,
    }
}

fn parse_error_to_diagnostic(line_index: &LineIndex, error: &ParseError) -> (d: Diagnostic)
    ensures
        d@ == parse_error_diagnostic(line_index@, *error),
{
    Diagnostic {
        range: error_range(line_index, error),
        severity: Some(Severity::Error),
        source: Some(String::from_str("ase-ls")),
        message: error.message.clone(),
    }
}

/// Diagnostics of an analysis: one error per parse error, in order, then
/// one warning per `*` item of every SELECT in the statements (when its `*`
/// token is found).
pub fn diagnose(analysis: &DocumentAnalysis) -> (r: Vec<Diagnostic>)
    ensures
        r@.len() >= analysis.parse_errors@.len(),
        diagnostics_view(r@.take(analysis.parse_errors@.len() as int)) == analysis.parse_errors@.map_values(
            |e: ParseError| parse_error_diagnostic(analysis.line_index@, e),
        ),
        tokens_sorted(analysis.tokens@) ==> diagnostics_view(r@.skip(analysis.parse_errors@.len() as int))
            == star_diagnostics(analysis, stmts_star_spans(analysis.statements@)),
{
    let mut diags: Vec<Diagnostic> = Vec::new();
    let mut i: usize = 0;
    while i < analysis.parse_errors.len()
        invariant
            i <= analysis.parse_errors@.len(),
            diags@.len() == i,
            forall|k: int| 0 <= k < i ==> (#[trigger] diags@[k])@ == parse_error_diagnostic(
                analysis.line_index@,
                analysis.parse_errors@[k],
            ),
        decreases analysis.parse_errors@.len() - i,
    {
        diags.push(parse_error_to_diagnostic(&analysis.line_index, &analysis.parse_errors[i]));
        i = i + 1;
    }
    let n0 = diags.len();
    assert(diagnostics_view(diags@.take(n0 as int)) =~= analysis.parse_errors@.map_values(
        |e: ParseError| parse_error_diagnostic(analysis.line_index@, e),
    ));
    let ghost head = diags@;
    let mut spans: Vec<Span> = Vec::new();
    walk_statements(&analysis.statements, &mut spans);
    assert(spans@ =~= stmts_star_spans(analysis.statements@));
    let mut j: usize = 0;
    assert(spans@.take(0) =~= Seq::<Span>::empty());
    while j < spans.len()
        invariant
            j <= spans@.len(),
            spans@ == stmts_star_spans(analysis.statements@),
            n0 == head.len(),
            diags@.len() >= n0,
            diags@.take(n0 as int) == head,
            tokens_sorted(analysis.tokens@) ==> diagnostics_view(diags@.skip(n0 as int)) == star_diagnostics(
                analysis,
                spans@.take(j as int),
            ),
        decreases spans@.len() - j,
    {
        assert(spans@.take(j + 1).drop_last() =~= spans@.take(j as int));
        let ghost before = diags@;
        match make_star_diagnostic(analysis, spans[j]) {
            Some(d) => {
                diags.push(d);
                assert(diags@.skip(n0 as int) =~= before.skip(n0 as int).push(d));
            },
            None => {},
        }
        assert(diags@.take(n0 as int) =~= head);
        proof {
            if tokens_sorted(analysis.tokens@) {
                assert(diagnostics_view(diags@.skip(n0 as int)) =~= star_diagnostics(analysis, spans@.take(j + 1)));
            }
        }
        j = j + 1;
    }
    assert(spans@.take(spans@.len() as int) =~= spans@);
    diags
}

} // verus!
