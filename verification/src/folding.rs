//! Folding ranges: multi-line block comments, and multi-line blocks,
//! branches, loops, TRY/CATCH blocks and procedure and trigger bodies.

use crate::analysis::DocumentAnalysis;
use crate::ast::{stmt_span, CreateStatement, Statement};
use crate::line_index::{position_at, LineIndex};
use crate::span_resolve::{block_end, resolve_block_end, resolve_stmt_end, stmt_end};
use crate::token::{OwnedToken, TokenKind};
use vstd::prelude::*;

verus! {

/// Kind of a folding range.
#[derive(Debug, Clone, Copy, PartialEq, Eq, Structural)]
pub enum FoldingRangeKind {
    /// A comment.
    Comment,
    /// Imports.
    Imports,
    /// A region of code.
    Region,
}

/// A range of lines that can be folded.
#[derive(Debug, Clone, Copy, PartialEq, Eq, Structural)]
pub struct FoldingRange {
    /// First line.
    pub start_line: u32,
    /// First character (not set).
    pub start_character: Option<u32>,
    /// Last line.
    pub end_line: u32,
    /// Last character (not set).
    pub end_character: Option<u32>,
    /// Kind of range.
    pub kind: Option<FoldingRangeKind>,
}

/// A fold over whole lines.
pub open spec fn line_fold(start_line: u32, end_line: u32, kind: FoldingRangeKind) -> FoldingRange {
    FoldingRange { start_line, start_character: None, end_line, end_character: None, kind: Some(kind) }
}

/// Folds of block comments that span more than one line, in order.
pub open spec fn comment_folds(li: Seq<u32>, ts: Seq<OwnedToken>) -> Seq<FoldingRange>
    decreases ts.len(),
{
    if ts.len() == 0 {
        Seq::empty()
    } else {
        let t = ts.last();
        let prev = comment_folds(li, ts.drop_last());
        if t.kind == TokenKind::BlockComment {
            let s = position_at(li, t.span.start as int).line;
            let e = position_at(li, (if t.span.end > 0 { t.span.end - 1 } else { 0 }) as int).line;
            if s < e {
                prev.push(line_fold(s, e, FoldingRangeKind::Comment))
            } else {
                prev
            }
        } else {
            prev
        }
    }
}

/// Folds of the multi-line block comments among `tokens` (a token stream
/// that keeps comments).
pub fn fold_comments(line_index: &LineIndex, tokens: &Vec<OwnedToken>) -> (r: Vec<FoldingRange>)
    ensures
        r@ == comment_folds(line_index@, tokens@),
{
    let mut ranges: Vec<FoldingRange> = Vec::new();
    let mut i: usize = 0;
    assert(tokens@.take(0) =~= Seq::<OwnedToken>::empty());
    while i < tokens.len()
        invariant
            i <= tokens@.len(),
            ranges@ == comment_folds(line_index@, tokens@.take(i as int)),
        decreases tokens@.len() - i,
    {
        assert(tokens@.take(i + 1).drop_last() =~= tokens@.take(i as int));
        let t = &tokens[i];
        if matches!(t.kind, TokenKind::BlockComment) {
            let (s, _) = line_index.offset_to_position(t.span.start);
            let last = if t.span.end > 0 { t.span.end - 1 } else { 0 };
            let (e, _) = line_index.offset_to_position(last);
            if s < e {
                ranges.push(FoldingRange {
                    start_line: s,
                    start_character: None,
                    end_line: e,
                    end_character: None,
                    kind: Some(FoldingRangeKind::Comment),
                });
            }
        }
        i = i + 1;
    }
    assert(tokens@.take(tokens@.len() as int) =~= tokens@);
    ranges
}

/// Index of the last token starting at or after `start`.
pub open spec fn last_token_from(ts: Seq<OwnedToken>, start: int) -> Option<int>
    decreases ts.len(),
{
    if ts.len() == 0 {
        None
    } else if ts.last().span.start as int >= start {
        Some(ts.len() - 1)
    } else {
        last_token_from(ts.drop_last(), start)
    }
}

/// The fold of a region from `start` to a resolved end (or, when there is
/// none or it is not after `start`, to the end of the last token starting at
/// or after `start`), when it spans more than one line. Offsets are taken as
/// `u32`.
pub open spec fn region_fold(a: &DocumentAnalysis, start: int, resolved: Option<int>) -> Option<FoldingRange> {
    let end = match resolved {
        Some(e) => if e > start { Some(e) } else {
            match last_token_from(a.tokens@, start) {
                Some(i) => Some(a.tokens@[i].span.end as int),
                None => None,
            }
        },
        None => match last_token_from(a.tokens@, start) {
            Some(i) => Some(a.tokens@[i].span.end as int),
            None => None,
        },
    };
    match end {
        Some(e) => {
            let s = position_at(a.line_index@, (start as u32) as int).line;
            let l = position_at(a.line_index@, (e as u32) as int).line;
            if s < l {
                Some(line_fold(s, l, FoldingRangeKind::Region))
            } else {
                None
            }
        },
        None => None,
    }
}

/// The fold of a region, as a sequence of zero or one folds.
#[verifier::opaque]
pub open spec fn region_folds(a: &DocumentAnalysis, start: int, resolved: Option<int>) -> Seq<FoldingRange> {
    match region_fold(a, start, resolved) {
        Some(f) => seq![f],
        None => Seq::empty(),
    }
}

fn last_token_index_from(tokens: &Vec<OwnedToken>, start: usize) -> (r: Option<usize>)
    ensures
        r matches Some(i) ==> i < tokens@.len(),
        match r {
            Some(i) => last_token_from(tokens@, start as int) == Some(i as int),
            None => last_token_from(tokens@, start as int) is None,
        },
{
    let mut k = tokens.len();
    assert(tokens@.take(k as int) =~= tokens@);
    while k > 0
        invariant
            k <= tokens@.len(),
            last_token_from(tokens@, start as int) == last_token_from(tokens@.take(k as int), start as int),
        decreases k,
    {
        assert(tokens@.take(k as int).last() == tokens@[k - 1]);
        assert(tokens@.take(k as int).drop_last() =~= tokens@.take(k - 1));
        if tokens[k - 1].span.start as usize >= start {
            return Some(k - 1);
        }
        k = k - 1;
    }
    None
}

fn add_fold_if_multiline(
    start_offset: usize,
    resolved_end: Option<usize>,
    analysis: &DocumentAnalysis,
    ranges: &mut Vec<FoldingRange>,
)
    ensures
        final(ranges)@ == old(ranges)@ + region_folds(
            analysis,
            start_offset as int,
            match resolved_end { Some(e) => Some(e as int), None => None },
        ),
{
    reveal(region_folds);
    let end: usize = match resolved_end {
        Some(e) if e > start_offset => e,
        _ => match last_token_index_from(&analysis.tokens, start_offset) {
            Some(i) => analysis.tokens[i].span.end as usize,
            None => {
                assert(ranges@ =~= old(ranges)@ + region_folds(
                    analysis,
                    start_offset as int,
                    match resolved_end { Some(e) => Some(e as int), None => None },
                ));
                return;
            },
        },
    };
    let (start_line, _) = analysis.line_index.offset_to_position(#[verifier::truncate] (start_offset as u32));
    let (end_line, _) = analysis.line_index.offset_to_position(#[verifier::truncate] (end as u32));
    if start_line < end_line {
        ranges.push(FoldingRange {
            start_line,
            start_character: None,
            end_line,
            end_character: None,
            kind: Some(FoldingRangeKind::Region),
        });
    }
    assert(ranges@ =~= old(ranges)@ + region_folds(
        analysis,
        start_offset as int,
        match resolved_end { Some(e) => Some(e as int), None => None },
    ));
}

/// Folds of the structure of a statement: a block, an IF (as a whole), a
/// loop, each TRY and CATCH block, a procedure or trigger; nested
/// statements follow their parent.
pub open spec fn stmt_folds(a: &DocumentAnalysis, s: Statement) -> Seq<FoldingRange>
    decreases s,
{
    match s {
        Statement::Block(b) => region_folds(a, b.span.start as int, block_end(a.tokens@, b))
            + stmts_folds(a, b.statements@),
        Statement::If { then_branch, else_branch, span, .. } => region_folds(a, span.start as int, stmt_end(a.tokens@, s))
            + stmt_folds(a, *then_branch) + match else_branch {
            Some(e) => stmt_folds(a, *e),
            None => Seq::empty(),
        },
        Statement::While { body, span, .. } => region_folds(a, span.start as int, stmt_end(a.tokens@, s))
            + stmt_folds(a, *body),
        Statement::TryCatch { try_block, catch_block, .. } => region_folds(
            a,
            try_block.span.start as int,
            block_end(a.tokens@, try_block),
        ) + stmts_folds(a, try_block.statements@) + region_folds(
            a,
            catch_block.span.start as int,
            block_end(a.tokens@, catch_block),
        ) + stmts_folds(a, catch_block.statements@),
        Statement::Create(c) => match *c {
            CreateStatement::Procedure(pd) => region_folds(a, pd.span.start as int, stmt_end(a.tokens@, s))
                + stmts_folds(a, pd.body@),
            CreateStatement::Trigger(tr) => region_folds(a, tr.span.start as int, stmt_end(a.tokens@, s))
                + stmts_folds(a, tr.body@),
            _ => Seq::empty(),
        },
        _ => Seq::empty(),
    }
}

/// Folds of the structure of statements, in order.
pub open spec fn stmts_folds(a: &DocumentAnalysis, ss: Seq<Statement>) -> Seq<FoldingRange>
    decreases ss,
{
    if ss.len() == 0 {
        Seq::empty()
    } else {
        stmts_folds(a, ss.drop_last()) + stmt_folds(a, ss.last())
    }
}

fn collect_ast_folds(stmt: &Statement, analysis: &DocumentAnalysis, ranges: &mut Vec<FoldingRange>)
    ensures
        final(ranges)@ == old(ranges)@ + stmt_folds(analysis, *stmt),
    decreases stmt,
{
    let ghost r0 = ranges@;
    match stmt {
        Statement::Block(b) => {
            let end = resolve_block_end(b, analysis);
            add_fold_if_multiline(b.span.start as usize, end, analysis, ranges);
            collect_folds_in(&b.statements, analysis, ranges);
        },
        Statement::If { then_branch, else_branch, span, .. } => {
            let end = resolve_stmt_end(stmt, analysis);
            add_fold_if_multiline(span.start as usize, end, analysis, ranges);
            collect_ast_folds(then_branch, analysis, ranges);
            match else_branch {
                Some(e) => {
                    collect_ast_folds(e, analysis, ranges);
                },
                None => {},
            }
        },
        Statement::While { body, span, .. } => {
            let end = resolve_stmt_end(stmt, analysis);
            add_fold_if_multiline(span.start as usize, end, analysis, ranges);
            collect_ast_folds(body, analysis, ranges);
        },
        Statement::TryCatch { try_block, catch_block, .. } => {
            let te = resolve_block_end(try_block, analysis);
            add_fold_if_multiline(try_block.span.start as usize, te, analysis, ranges);
            collect_folds_in(&try_block.statements, analysis, ranges);
            let ce = resolve_block_end(catch_block, analysis);
            add_fold_if_multiline(catch_block.span.start as usize, ce, analysis, ranges);
            collect_folds_in(&catch_block.statements, analysis, ranges);
        },
        Statement::Create(c) => {
            match &**c {
                CreateStatement::Procedure(pd) => {
                    let end = resolve_stmt_end(stmt, analysis);
                    add_fold_if_multiline(pd.span.start as usize, end, analysis, ranges);
                    collect_folds_in(&pd.body, analysis, ranges);
                },
                CreateStatement::Trigger(tr) => {
                    let end = resolve_stmt_end(stmt, analysis);
                    add_fold_if_multiline(tr.span.start as usize, end, analysis, ranges);
                    collect_folds_in(&tr.body, analysis, ranges);
                },
                _ => {},
            }
        },
        _ => {},
    }
    assert(ranges@ =~= r0 + stmt_folds(analysis, *stmt));
}

fn collect_folds_in(ss: &Vec<Statement>, analysis: &DocumentAnalysis, ranges: &mut Vec<FoldingRange>)
    ensures
        final(ranges)@ == old(ranges)@ + stmts_folds(analysis, ss@),
    decreases ss,
{
    let ghost r0 = ranges@;
    let mut i: usize = 0;
    assert(ss@.take(0) =~= Seq::<Statement>::empty());
    assert(ranges@ =~= r0 + stmts_folds(analysis, ss@.take(0)));
    while i < ss.len()
        invariant
            i <= ss@.len(),
            ranges@ == r0 + stmts_folds(analysis, ss@.take(i as int)),
        decreases ss@.len() - i,
    {
        assert(ss@.take(i + 1).drop_last() =~= ss@.take(i as int));
        collect_ast_folds(&ss[i], analysis, ranges);
        assert(ranges@ =~= r0 + stmts_folds(analysis, ss@.take(i + 1)));
        i = i + 1;
    }
    assert(ss@.take(ss@.len() as int) =~= ss@);
}

/// Folding ranges of a document: the multi-line block comments among
/// `comment_tokens` (the document's tokens, comments kept), then the folds of
/// its statements.
pub fn folding_ranges_with_analysis(analysis: &DocumentAnalysis, comment_tokens: &Vec<OwnedToken>) -> (r: Vec<FoldingRange>)
    ensures
        r@ == comment_folds(analysis.line_index@, comment_tokens@) + stmts_folds(analysis, analysis.statements@),
{
    let mut ranges = fold_comments(&analysis.line_index, comment_tokens);
    collect_folds_in(&analysis.statements, analysis, &mut ranges);
    ranges
}


/// Every fold of a sequence starts on a line before the one it ends on.
pub open spec fn all_multiline(fs: Seq<FoldingRange>) -> bool {
    forall|k: int| 0 <= k < fs.len() ==> (#[trigger] fs[k]).start_line < fs[k].end_line
}

proof fn lemma_multiline_concat(a: Seq<FoldingRange>, b: Seq<FoldingRange>)
    requires
        all_multiline(a),
        all_multiline(b),
    ensures
        all_multiline(a + b),
{
    assert forall|k: int| 0 <= k < (a + b).len() implies (#[trigger] (a + b)[k]).start_line < (a + b)[k].end_line by {
        if k < a.len() {
            assert((a + b)[k] == a[k]);
        } else {
            assert((a + b)[k] == b[k - a.len()]);
        }
    }
}

proof fn lemma_comment_folds_multiline(li: Seq<u32>, ts: Seq<OwnedToken>)
    ensures
        all_multiline(comment_folds(li, ts)),
    decreases ts.len(),
{
    if ts.len() > 0 {
        lemma_comment_folds_multiline(li, ts.drop_last());
    }
}

proof fn lemma_region_folds_multiline(a: &DocumentAnalysis, start: int, resolved: Option<int>)
    ensures
        all_multiline(region_folds(a, start, resolved)),
{
    reveal(region_folds);
}

proof fn lemma_stmt_folds_multiline(a: &DocumentAnalysis, s: Statement)
    ensures
        all_multiline(stmt_folds(a, s)),
    decreases s,
{
    match s {
        Statement::Block(b) => {
            lemma_region_folds_multiline(a, b.span.start as int, block_end(a.tokens@, b));
            lemma_stmts_folds_multiline(a, b.statements@);
            lemma_multiline_concat(region_folds(a, b.span.start as int, block_end(a.tokens@, b)), stmts_folds(a, b.statements@));
        },
        Statement::If { then_branch, else_branch, span, .. } => {
            let r = region_folds(a, span.start as int, stmt_end(a.tokens@, s));
            lemma_region_folds_multiline(a, span.start as int, stmt_end(a.tokens@, s));
            lemma_stmt_folds_multiline(a, *then_branch);
            lemma_multiline_concat(r, stmt_folds(a, *then_branch));
            match else_branch {
                Some(e) => {
                    lemma_stmt_folds_multiline(a, *e);
                    lemma_multiline_concat(r + stmt_folds(a, *then_branch), stmt_folds(a, *e));
                },
                None => {
                    lemma_multiline_concat(r + stmt_folds(a, *then_branch), Seq::empty());
                },
            }
        },
        Statement::While { body, span, .. } => {
            lemma_region_folds_multiline(a, span.start as int, stmt_end(a.tokens@, s));
            lemma_stmt_folds_multiline(a, *body);
            lemma_multiline_concat(region_folds(a, span.start as int, stmt_end(a.tokens@, s)), stmt_folds(a, *body));
        },
        Statement::TryCatch { try_block, catch_block, .. } => {
            let r1 = region_folds(a, try_block.span.start as int, block_end(a.tokens@, try_block));
            let r2 = region_folds(a, catch_block.span.start as int, block_end(a.tokens@, catch_block));
            lemma_region_folds_multiline(a, try_block.span.start as int, block_end(a.tokens@, try_block));
            lemma_region_folds_multiline(a, catch_block.span.start as int, block_end(a.tokens@, catch_block));
            lemma_stmts_folds_multiline(a, try_block.statements@);
            lemma_stmts_folds_multiline(a, catch_block.statements@);
            lemma_multiline_concat(r1, stmts_folds(a, try_block.statements@));
            lemma_multiline_concat(r1 + stmts_folds(a, try_block.statements@), r2);
            lemma_multiline_concat(r1 + stmts_folds(a, try_block.statements@) + r2, stmts_folds(a, catch_block.statements@));
        },
        Statement::Create(c) => match *c {
            CreateStatement::Procedure(pd) => {
                lemma_region_folds_multiline(a, pd.span.start as int, stmt_end(a.tokens@, s));
                lemma_stmts_folds_multiline(a, pd.body@);
                lemma_multiline_concat(region_folds(a, pd.span.start as int, stmt_end(a.tokens@, s)), stmts_folds(a, pd.body@));
            },
            CreateStatement::Trigger(tr) => {
                lemma_region_folds_multiline(a, tr.span.start as int, stmt_end(a.tokens@, s));
                lemma_stmts_folds_multiline(a, tr.body@);
                lemma_multiline_concat(region_folds(a, tr.span.start as int, stmt_end(a.tokens@, s)), stmts_folds(a, tr.body@));
            },
            _ => {},
        },
        _ => {},
    }
}

proof fn lemma_stmts_folds_multiline(a: &DocumentAnalysis, ss: Seq<Statement>)
    ensures
        all_multiline(stmts_folds(a, ss)),
    decreases ss,
{
    if ss.len() > 0 {
        lemma_stmts_folds_multiline(a, ss.drop_last());
        lemma_stmt_folds_multiline(a, ss.last());
        lemma_multiline_concat(stmts_folds(a, ss.drop_last()), stmt_folds(a, ss.last()));
    }
}

/// Every folding range of a document spans more than one line.
pub proof fn law_folds_span_lines(a: &DocumentAnalysis, comment_tokens: Seq<OwnedToken>)
    ensures
        all_multiline(comment_folds(a.line_index@, comment_tokens) + stmts_folds(a, a.statements@)),
{
    lemma_comment_folds_multiline(a.line_index@, comment_tokens);
    lemma_stmts_folds_multiline(a, a.statements@);
    lemma_multiline_concat(comment_folds(a.line_index@, comment_tokens), stmts_folds(a, a.statements@));
}

} // verus!
