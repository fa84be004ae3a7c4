//! Where a statement or block really ends, when the parser's span may be
//! broken: the span itself, the end of the last child, or a scan of the
//! tokens for the END that closes the first BEGIN.

use crate::analysis::DocumentAnalysis;
use crate::ast::{stmt_span, BlockStatement, CreateStatement, Statement};
use crate::text::{eq_ignore_ascii, eq_ignore_ascii_case};
use crate::token::OwnedToken;
use vstd::prelude::*;
use vstd::string::*;

verus! {

/// How far past the start offset the token scan looks.
pub const SCAN_LIMIT: usize = 5000;

/// Whether a token reads BEGIN (any case).
pub open spec fn is_begin(t: OwnedToken) -> bool {
    eq_ignore_ascii(t.text@, "BEGIN"@)
}

/// Whether a token reads END (any case).
pub open spec fn is_end(t: OwnedToken) -> bool {
    eq_ignore_ascii(t.text@, "END"@)
}

/// The last offset the scan looks at.
pub open spec fn scan_limit_from(start: usize) -> int {
    if start as int + SCAN_LIMIT <= usize::MAX {
        start as int + SCAN_LIMIT
    } else {
        usize::MAX as int
    }
}

/// Scan from token `k`: tokens starting before `start` are skipped; the scan
/// stops at a token starting past the limit; the first BEGIN opens depth 1,
/// later BEGINs and ENDs move the depth (saturating at the ends of the
/// `u32` range), and the END that brings it to zero gives its end offset.
pub open spec fn scan_from(ts: Seq<OwnedToken>, k: int, start: usize, found: bool, depth: u32) -> Option<int>
    decreases ts.len() - k,
{
    if k < 0 || k >= ts.len() {
        None
    } else {
        let t = ts[k];
        if (t.span.start as int) < start {
            scan_from(ts, k + 1, start, found, depth)
        } else if t.span.start as int > scan_limit_from(start) {
            None
        } else if !found {
            if is_begin(t) {
                scan_from(ts, k + 1, start, true, 1)
            } else {
                scan_from(ts, k + 1, start, false, depth)
            }
        } else if is_begin(t) {
            scan_from(ts, k + 1, start, true, if depth < u32::MAX { (depth + 1) as u32 } else { depth })
        } else if is_end(t) {
            let d: u32 = if depth > 0 { (depth - 1) as u32 } else { 0 };
            if d == 0 {
                Some(t.span.end as int)
            } else {
                scan_from(ts, k + 1, start, true, d)
            }
        } else {
            scan_from(ts, k + 1, start, true, depth)
        }
    }
}

/// End offset of the END closing the first BEGIN at or after `start`.
pub open spec fn fallback_end(ts: Seq<OwnedToken>, start: usize) -> Option<int> {
    scan_from(ts, 0, start, false, 0)
}

/// End offset of the END that closes the first BEGIN at or after
/// `start_offset`, looking no further than 5000 bytes past it.
pub fn resolve_span_end_fallback(start_offset: usize, analysis: &DocumentAnalysis) -> (r: Option<usize>)
    ensures
        match r {
            Some(e) => fallback_end(analysis.tokens@, start_offset) == Some(e as int),
            None => fallback_end(analysis.tokens@, start_offset) is None,
        },
{
    let ghost ts = analysis.tokens@;
    let limit = start_offset.saturating_add(SCAN_LIMIT);
    let mut depth: u32 = 0;
    let mut found = false;
    let mut k: usize = 0;
    while k < analysis.tokens.len()
        invariant
            ts == analysis.tokens@,
            k <= ts.len(),
            limit == scan_limit_from(start_offset),
            fallback_end(ts, start_offset) == scan_from(ts, k as int, start_offset, found, depth),
        decreases ts.len() - k,
    {
        let t = &analysis.tokens[k];
        let s = t.span.start as usize;
        if s < start_offset {
            k = k + 1;
            continue;
        }
        if s > limit {
            return None;
        }
        let begin = eq_ignore_ascii_case(t.text.as_str(), "BEGIN");
        if !found {
            if begin {
                found = true;
                depth = 1;
            }
            k = k + 1;
            continue;
        }
        if begin {
            depth = depth.saturating_add(1);
        } else if eq_ignore_ascii_case(t.text.as_str(), "END") {
            depth = depth.saturating_sub(1);
            if depth == 0 {
                return Some(t.span.end as usize);
            }
        }
        k = k + 1;
    }
    None
}

/// A candidate end, moved back to the scanned end when that comes first.
pub open spec fn clamped(ts: Seq<OwnedToken>, start: usize, candidate: int) -> int {
    match fallback_end(ts, start) {
        Some(e) => if e < candidate { e } else { candidate },
        None => candidate,
    }
}

fn clamp_end_to_scan(start_offset: usize, candidate: usize, analysis: &DocumentAnalysis) -> (r: usize)
    ensures
        r == clamped(analysis.tokens@, start_offset, candidate as int),
{
    match resolve_span_end_fallback(start_offset, analysis) {
        Some(e) => if e < candidate { e } else { candidate },
        None => candidate,
    }
}

/// End of a block: its own span's end when the span is sound, else the end
/// of its last statement when that span is sound (each clamped to the
/// scanned end), else the scanned end.
pub open spec fn block_end(ts: Seq<OwnedToken>, b: BlockStatement) -> Option<int> {
    let start = b.span.start as usize;
    if b.span.end > b.span.start {
        Some(clamped(ts, start, b.span.end as int))
    } else if b.statements@.len() > 0 && stmt_span(b.statements@.last()).end > stmt_span(b.statements@.last()).start {
        Some(clamped(ts, start, stmt_span(b.statements@.last()).end as int))
    } else {
        fallback_end(ts, start)
    }
}

/// End of a block (see [`block_end`]).
pub fn resolve_block_end(block: &BlockStatement, analysis: &DocumentAnalysis) -> (r: Option<usize>)
    ensures
        match r {
            Some(e) => block_end(analysis.tokens@, *block) == Some(e as int),
            None => block_end(analysis.tokens@, *block) is None,
        },
{
    let start = block.span.start as usize;
    if block.span.end > block.span.start {
        return Some(clamp_end_to_scan(start, block.span.end as usize, analysis));
    }
    let n = block.statements.len();
    if n > 0 {
        let s = block.statements[n - 1].span();
        if s.end > s.start {
            return Some(clamp_end_to_scan(start, s.end as usize, analysis));
        }
    }
    resolve_span_end_fallback(start, analysis)
}

/// The later of two optional ends.
pub open spec fn later(a: Option<int>, b: Option<int>) -> Option<int> {
    match (a, b) {
        (Some(x), Some(y)) => Some(if x >= y { x } else { y }),
        (Some(x), None) => Some(x),
        (None, Some(y)) => Some(y),
        (None, None) => None,
    }
}

/// End of the last statement of a body, when its span is sound.
pub open spec fn tail_end(body: Seq<Statement>) -> Option<int> {
    if body.len() > 0 && stmt_span(body.last()).end > stmt_span(body.last()).start {
        Some(stmt_span(body.last()).end as int)
    } else {
        None
    }
}

/// End of a statement: from its children first (a block's last statement,
/// the later of the branches of IF and of TRY/CATCH, a loop's body, a
/// procedure's or trigger's last body statement), then its own span clamped
/// to the scanned end, then the scanned end.
pub open spec fn stmt_end(ts: Seq<OwnedToken>, s: Statement) -> Option<int>
    decreases s,
{
    let span = stmt_span(s);
    let start = span.start as usize;
    let own = if span.end > span.start {
        Some(clamped(ts, start, span.end as int))
    } else {
        fallback_end(ts, start)
    };
    match s {
        Statement::Block(b) => match tail_end(b.statements@) {
            Some(e) => Some(e),
            None => own,
        },
        Statement::If { then_branch, else_branch, .. } => match later(
            stmt_end(ts, *then_branch),
            match else_branch {
                Some(e) => stmt_end(ts, *e),
                None => None,
            },
        ) {
            Some(e) => Some(e),
            None => own,
        },
        Statement::While { body, .. } => match stmt_end(ts, *body) {
            Some(e) => Some(e),
            None => own,
        },
        Statement::TryCatch { try_block, catch_block, .. } => match later(
            block_end(ts, try_block),
            block_end(ts, catch_block),
        ) {
            Some(e) => Some(e),
            None => own,
        },
        Statement::Create(c) => match *c {
            CreateStatement::Procedure(pd) => match tail_end(pd.body@) {
                Some(e) => Some(e),
                None => own,
            },
            CreateStatement::Trigger(tr) => match tail_end(tr.body@) {
                Some(e) => Some(e),
                None => own,
            },
            _ => fallback_end(ts, start),
        },
        _ => own,
    }
}

fn later_of(a: Option<usize>, b: Option<usize>) -> (r: Option<usize>)
    ensures
        match r {
            Some(x) => later(
                match a { Some(v) => Some(v as int), None => None },
                match b { Some(v) => Some(v as int), None => None },
            ) == Some(x as int),
            None => later(
                match a { Some(v) => Some(v as int), None => None },
                match b { Some(v) => Some(v as int), None => None },
            ) is None,
        },
{
    match (a, b) {
        (Some(x), Some(y)) => Some(if x >= y { x } else { y }),
        (Some(x), None) => Some(x),
        (None, Some(y)) => Some(y),
        (None, None) => None,
    }
}

fn tail_end_of(body: &Vec<Statement>) -> (r: Option<usize>)
    ensures
        match r {
            Some(e) => tail_end(body@) == Some(e as int),
            None => tail_end(body@) is None,
        },
{
    let n = body.len();
    if n > 0 {
        let s = body[n - 1].span();
        if s.end > s.start {
            return Some(s.end as usize);
        }
    }
    None
}

/// End of a statement (see [`stmt_end`]).
pub fn resolve_stmt_end(stmt: &Statement, analysis: &DocumentAnalysis) -> (r: Option<usize>)
    ensures
        match r {
            Some(e) => stmt_end(analysis.tokens@, *stmt) == Some(e as int),
            None => stmt_end(analysis.tokens@, *stmt) is None,
        },
    decreases stmt,
{
    let span = stmt.span();
    let start = span.start as usize;
    let children: Option<usize> = match stmt {
        Statement::Block(b) => tail_end_of(&b.statements),
        Statement::If { then_branch, else_branch, .. } => {
            let t = resolve_stmt_end(then_branch, analysis);
            let e = match else_branch {
                Some(e) => resolve_stmt_end(e, analysis),
                None => None,
            };
            later_of(t, e)
        },
        Statement::While { body, .. } => resolve_stmt_end(body, analysis),
        Statement::TryCatch { try_block, catch_block, .. } => {
            let t = resolve_block_end(try_block, analysis);
            let c = resolve_block_end(catch_block, analysis);
            later_of(t, c)
        },
        Statement::Create(c) => match &**c {
            CreateStatement::Procedure(pd) => tail_end_of(&pd.body),
            CreateStatement::Trigger(tr) => tail_end_of(&tr.body),
            _ => return resolve_span_end_fallback(start, analysis),
        },
        _ => None,
    };
    match children {
        Some(e) => return Some(e),
        None => {},
    }
    if span.end > span.start {
        return Some(clamp_end_to_scan(start, span.end as usize, analysis));
    }
    resolve_span_end_fallback(start, analysis)
}

} // verus!
