//! Signature help for built-in functions: the innermost function call around
//! the cursor and the index of the argument being typed.

use crate::analysis::DocumentAnalysis;
use crate::db_docs::{lookup_function, spec_lookup_function, DocCategory, DocEntryView};
use crate::line_index::position_offset;
use crate::position::Position;
use crate::symbol_table::{to_uppercase, uppercase};
use crate::token::{OwnedToken, TokenKind};
use vstd::prelude::*;
use vstd::string::*;
use vstd::utf8::*;

verus! {

/// An open function call while scanning tokens.
#[derive(Debug)]
pub struct CallFrame {
    /// Function name, upper case.
    pub func_name: String,
    /// Zero-based index of the argument being typed.
    pub active_param: u32,
    /// Parenthesis depth reached by the call's `(`.
    pub open_depth: i32,
}

/// Content of a [`CallFrame`].
pub struct FrameModel {
    /// Function name, upper case.
    pub name: Seq<char>,
    /// Index of the argument being typed.
    pub active: int,
    /// Parenthesis depth reached by the call's `(`.
    pub open_depth: int,
}

impl View for CallFrame {
    type V = FrameModel;

    open spec fn view(&self) -> FrameModel {
        FrameModel { name: self.func_name@, active: self.active_param as int, open_depth: self.open_depth as int }
    }
}

/// State of the scan: open calls, parenthesis depth, and the name of the
/// last identifier or keyword, which a following `(` opens as a call.
pub struct ScanModel {
    /// Open calls, innermost last.
    pub stack: Seq<FrameModel>,
    /// Parenthesis depth.
    pub depth: int,
    /// Name waiting for a `(`.
    pub pending: Option<Seq<char>>,
}

/// The state before any token.
pub open spec fn scan_start() -> ScanModel {
    ScanModel { stack: Seq::empty(), depth: 0, pending: None }
}

/// Open calls after dropping those opened deeper than `d`.
pub open spec fn pop_above(stack: Seq<FrameModel>, d: int) -> Seq<FrameModel>
    decreases stack.len(),
{
    if stack.len() > 0 && stack.last().open_depth > d {
        pop_above(stack.drop_last(), d)
    } else {
        stack
    }
}

/// The state after one token: an identifier or keyword becomes the pending
/// name; `(` deepens and opens a call for a pending name; `)` closes the
/// calls it ends; a comma at a call's own depth moves it to its next
/// argument.
pub open spec fn scan_step(st: ScanModel, kind: TokenKind, text: Seq<char>) -> ScanModel {
    match kind {
        TokenKind::Ident => ScanModel { pending: Some(uppercase(text)), ..st },
        TokenKind::LParen => {
            let d = st.depth + 1;
            match st.pending {
                Some(n) => ScanModel {
                    stack: st.stack.push(FrameModel { name: n, active: 0, open_depth: d }),
                    depth: d,
                    pending: None,
                },
                None => ScanModel { stack: st.stack, depth: d, pending: None },
            }
        },
        TokenKind::RParen => {
            let d = st.depth - 1;
            let s1 = pop_above(st.stack, d);
            let s2 = if s1.len() > 0 && s1.last().open_depth == d + 1 {
                s1.drop_last()
            } else {
                s1
            };
            ScanModel { stack: s2, depth: d, pending: None }
        },
        TokenKind::Comma => {
            if st.stack.len() > 0 && st.depth == st.stack.last().open_depth {
                let top = st.stack.last();
                ScanModel {
                    stack: st.stack.update(st.stack.len() - 1, FrameModel { active: top.active + 1, ..top }),
                    ..st
                }
            } else {
                st
            }
        },
        _ => if kind.is_keyword() {
            ScanModel { pending: Some(uppercase(text)), ..st }
        } else {
            st
        },
    }
}

/// The state after the first `n` tokens.
pub open spec fn scan_upto(ts: Seq<OwnedToken>, n: int) -> ScanModel
    decreases n,
{
    if n <= 0 {
        scan_start()
    } else {
        scan_step(scan_upto(ts, n - 1), ts[n - 1].kind, ts[n - 1].text@)
    }
}

/// Number of tokens scanned for `offset`: those before the first token that
/// starts after it.
pub open spec fn scanned_count(ts: Seq<OwnedToken>, offset: int) -> int
    decreases ts.len(),
{
    if ts.len() == 0 {
        0
    } else {
        let k = scanned_count(ts.drop_last(), offset);
        if k == ts.len() - 1 && ts.last().span.start <= offset {
            ts.len() as int
        } else {
            k
        }
    }
}

/// The innermost open call at `offset`, when the cursor is inside
/// parentheses.
pub open spec fn call_frame_at(ts: Seq<OwnedToken>, offset: int) -> Option<FrameModel> {
    let st = scan_upto(ts, scanned_count(ts, offset));
    if st.depth > 0 && st.stack.len() > 0 {
        Some(st.stack.last())
    } else {
        None
    }
}

/// Open calls are nested: each was opened deeper than the one below it, and
/// none deeper than the current parenthesis depth.
pub open spec fn frames_nested(stack: Seq<FrameModel>, depth: int) -> bool {
    &&& forall|i: int, j: int| 0 <= i < j < stack.len() ==> #[trigger] stack[i].open_depth < #[trigger] stack[j].open_depth
    &&& forall|i: int| 0 <= i < stack.len() ==> #[trigger] stack[i].open_depth <= depth
}

proof fn lemma_pop_above(stack: Seq<FrameModel>, d: int)
    ensures
        pop_above(stack, d).len() <= stack.len(),
        pop_above(stack, d) == stack.take(pop_above(stack, d).len() as int),
        forall|i: int| pop_above(stack, d).len() <= i < stack.len() ==> #[trigger] stack[i].open_depth > d,
        pop_above(stack, d).len() > 0 ==> pop_above(stack, d).last().open_depth <= d,
    decreases stack.len(),
{
    if stack.len() > 0 && stack.last().open_depth > d {
        let q = stack.drop_last();
        lemma_pop_above(q, d);
        let r = pop_above(q, d);
        assert(q.take(r.len() as int) =~= stack.take(r.len() as int));
        assert forall|i: int| r.len() <= i < stack.len() implies #[trigger] stack[i].open_depth > d by {
            if i < q.len() {
                assert(stack[i] == q[i]);
            }
        }
    } else {
        assert(stack.take(stack.len() as int) =~= stack);
    }
}

/// However the tokens run, the open calls of the scan stay nested (see
/// [`frames_nested`]).
pub proof fn law_scan_frames_nested(ts: Seq<OwnedToken>, n: int)
    ensures
        frames_nested(scan_upto(ts, n).stack, scan_upto(ts, n).depth),
    decreases n,
{
    if n > 0 {
        law_scan_frames_nested(ts, n - 1);
        let st = scan_upto(ts, n - 1);
        let kind = ts[n - 1].kind;
        assert(scan_upto(ts, n) == scan_step(st, kind, ts[n - 1].text@));
        if kind == TokenKind::LParen {
            let d = st.depth + 1;
            match st.pending {
                Some(nm) => {
                    let s2 = st.stack.push(FrameModel { name: nm, active: 0, open_depth: d });
                    assert forall|i: int, j: int| 0 <= i < j < s2.len() implies #[trigger] s2[i].open_depth
                        < #[trigger] s2[j].open_depth by {
                        if j < st.stack.len() {
                            assert(s2[i] == st.stack[i] && s2[j] == st.stack[j]);
                        } else {
                            assert(s2[i] == st.stack[i]);
                        }
                    }
                    assert forall|i: int| 0 <= i < s2.len() implies #[trigger] s2[i].open_depth <= d by {
                        if i < st.stack.len() {
                            assert(s2[i] == st.stack[i]);
                        }
                    }
                },
                None => {},
            }
        } else if kind == TokenKind::RParen {
            let d = st.depth - 1;
            lemma_pop_above(st.stack, d);
            let s1 = pop_above(st.stack, d);
            assert forall|i: int| 0 <= i < s1.len() implies #[trigger] s1[i].open_depth <= d by {
                assert(s1[i] == st.stack[i]);
                assert(s1[s1.len() - 1] == st.stack[s1.len() - 1]);
            }
            let s2 = scan_upto(ts, n).stack;
            assert forall|i: int, j: int| 0 <= i < j < s2.len() implies #[trigger] s2[i].open_depth
                < #[trigger] s2[j].open_depth by {
                assert(s2[i] == st.stack[i] && s2[j] == st.stack[j]);
            }
            assert forall|i: int| 0 <= i < s2.len() implies #[trigger] s2[i].open_depth <= d by {
                assert(s2[i] == s1[i]);
            }
        } else if kind == TokenKind::Comma {
            if st.stack.len() > 0 && st.depth == st.stack.last().open_depth {
                let s2 = scan_upto(ts, n).stack;
                assert forall|i: int| 0 <= i < s2.len() implies #[trigger] s2[i].open_depth
                    == st.stack[i].open_depth by {}
                assert forall|i: int, j: int| 0 <= i < j < s2.len() implies #[trigger] s2[i].open_depth
                    < #[trigger] s2[j].open_depth by {
                    assert(s2[i].open_depth == st.stack[i].open_depth);
                    assert(s2[j].open_depth == st.stack[j].open_depth);
                }
            }
        }
    }
}

/// A `)` closes only the calls opened deeper than the depth it leaves: the
/// open calls after it are those before it that were opened at that depth
/// or above, in the same order, and every call it closed was opened deeper.
/// So after `F(G(x), ` the innermost open call is still `F`.
pub proof fn law_close_paren_keeps_outer_calls(ts: Seq<OwnedToken>, n: int)
    requires
        0 < n <= ts.len(),
        ts[n - 1].kind == TokenKind::RParen,
    ensures
        ({
            let before = scan_upto(ts, n - 1);
            let after = scan_upto(ts, n);
            &&& after.depth == before.depth - 1
            &&& after.stack.len() <= before.stack.len()
            &&& after.stack == before.stack.take(after.stack.len() as int)
            &&& forall|i: int| 0 <= i < after.stack.len() ==> #[trigger] before.stack[i].open_depth <= after.depth
            &&& forall|i: int| after.stack.len() <= i < before.stack.len() ==> #[trigger] before.stack[i].open_depth
                > after.depth
        }),
{
    law_scan_frames_nested(ts, n - 1);
    let st = scan_upto(ts, n - 1);
    let d = st.depth - 1;
    assert(scan_upto(ts, n) == scan_step(st, ts[n - 1].kind, ts[n - 1].text@));
    lemma_pop_above(st.stack, d);
    let s1 = pop_above(st.stack, d);
    assert forall|i: int| 0 <= i < s1.len() implies #[trigger] st.stack[i].open_depth <= d by {
        assert(s1[i] == st.stack[i]);
        assert(s1[s1.len() - 1] == st.stack[s1.len() - 1]);
    }
    if s1.len() > 0 {
        assert(s1.last() == st.stack[s1.len() - 1]);
    }
    assert(scan_upto(ts, n).stack == s1);
}

/// The contents of a stack of frames.
pub open spec fn frames_view(v: Seq<CallFrame>) -> Seq<FrameModel> {
    v.map_values(|f: CallFrame| f@)
}

proof fn lemma_scanned_count(ts: Seq<OwnedToken>, offset: int)
    ensures
        0 <= scanned_count(ts, offset) <= ts.len(),
        forall|i: int| 0 <= i < scanned_count(ts, offset) ==> ts[i].span.start <= offset,
        scanned_count(ts, offset) < ts.len() ==> ts[scanned_count(ts, offset)].span.start > offset,
    decreases ts.len(),
{
    if ts.len() > 0 {
        let p = ts.drop_last();
        lemma_scanned_count(p, offset);
        let k = scanned_count(p, offset);
        if k < p.len() {
            assert(ts[k] == p[k]);
        }
        assert forall|i: int| 0 <= i < scanned_count(ts, offset) && i < p.len() implies ts[i].span.start <= offset by {
            assert(ts[i] == p[i]);
        }
    }
}

/// Scan tokens up to `offset` and return the innermost function call that
/// the cursor is in, with the index of its current argument.
pub fn scan_for_call_frame(tokens: &Vec<OwnedToken>, offset: usize) -> (r: Option<CallFrame>)
    requires
        tokens@.len() < i32::MAX,
    ensures
        match r {
            Some(f) => call_frame_at(tokens@, offset as int) == Some(f@),
            None => call_frame_at(tokens@, offset as int) is None,
        },
{
    let ghost ts = tokens@;
    let mut stack: Vec<CallFrame> = Vec::new();
    let mut paren_depth: i32 = 0;
    let mut pending_name: Option<String> = None;
    let mut i: usize = 0;
    proof {
        lemma_scanned_count(ts, offset as int);
    }
    assert(frames_view(stack@) =~= Seq::<FrameModel>::empty());
    while i < tokens.len()
        invariant_except_break
            ts == tokens@,
            ts.len() < i32::MAX,
            i <= ts.len(),
            0 <= scanned_count(ts, offset as int) <= ts.len(),
            scanned_count(ts, offset as int) < ts.len() ==> ts[scanned_count(ts, offset as int)].span.start > offset,
            forall|k: int| 0 <= k < i ==> ts[k].span.start <= offset,
            frames_view(stack@) == scan_upto(ts, i as int).stack,
            paren_depth == scan_upto(ts, i as int).depth,
            -(i as int) <= paren_depth <= i,
            forall|k: int| 0 <= k < stack@.len() ==> (#[trigger] stack@[k]).active_param <= i,
            match pending_name {
                Some(n) => scan_upto(ts, i as int).pending == Some(n@),
                None => scan_upto(ts, i as int).pending is None,
            },
        ensures
            ts == tokens@,
            i <= ts.len(),
            i == scanned_count(ts, offset as int),
            frames_view(stack@) == scan_upto(ts, i as int).stack,
            paren_depth == scan_upto(ts, i as int).depth,
        decreases ts.len() - i,
    {
        let tok = &tokens[i];
        if tok.span.start as usize > offset {
            proof {
                lemma_scanned_count(ts, offset as int);
                let c = scanned_count(ts, offset as int);
                if c < i {
                    assert(ts[c].span.start <= offset);
                }
            }
            break;
        }
        let ghost st = scan_upto(ts, i as int);
        assert(scan_upto(ts, i + 1) == scan_step(st, tok.kind, tok.text@));
        match tok.kind {
            TokenKind::Ident => {
                pending_name = Some(to_uppercase(tok.text.as_str()));
            },
            TokenKind::LParen => {
                paren_depth = paren_depth + 1;
                match pending_name {
                    Some(name) => {
                        let ghost before = stack@;
                        stack.push(CallFrame { func_name: name, active_param: 0, open_depth: paren_depth });
                        assert(frames_view(stack@) =~= frames_view(before).push(stack@[stack@.len() - 1]@));
                    },
                    None => {},
                }
                pending_name = None;
            },
            TokenKind::RParen => {
                paren_depth = paren_depth - 1;
                let ghost s0 = frames_view(stack@);
                while stack.len() > 0 && stack[stack.len() - 1].open_depth > paren_depth
                    invariant
                        pop_above(frames_view(stack@), paren_depth as int) == pop_above(s0, paren_depth as int),
                        forall|k: int| 0 <= k < stack@.len() ==> (#[trigger] stack@[k]).active_param <= i,
                    decreases stack@.len(),
                {
                    let ghost before = stack@;
                    stack.pop();
                    assert(frames_view(stack@) =~= frames_view(before).drop_last());
                }
                assert(pop_above(frames_view(stack@), paren_depth as int) == frames_view(stack@));
                if stack.len() > 0 && stack[stack.len() - 1].open_depth == paren_depth + 1 {
                    let ghost before = stack@;
                    stack.pop();
                    assert(frames_view(stack@) =~= frames_view(before).drop_last());
                }
                pending_name = None;
            },
            TokenKind::Comma => {
                let n = stack.len();
                if n > 0 && paren_depth == stack[n - 1].open_depth {
                    let ghost before = stack@;
                    let mut top = stack.pop().unwrap();
                    top.active_param = top.active_param + 1;
                    stack.push(top);
                    assert(frames_view(stack@) =~= frames_view(before).update(
                        n - 1,
                        FrameModel { active: frames_view(before)[n - 1].active + 1, ..frames_view(before)[n - 1] },
                    ));
                }
            },
            _ => {
                if tok.kind.is_keyword() {
                    pending_name = Some(to_uppercase(tok.text.as_str()));
                }
            },
        }
        i = i + 1;
    }
    proof {
        lemma_scanned_count(ts, offset as int);
        if i == ts.len() {
            let c = scanned_count(ts, offset as int);
            if c < i {
                assert(ts[c].span.start <= offset);
            }
        }
    }
    if paren_depth > 0 && stack.len() > 0 {
        stack.pop()
    } else {
        None
    }
}

/// Signature of a function as the editor shows it.
pub struct SignatureInformation {
    /// Syntax line.
    pub label: String,
    /// Description.
    pub documentation: Option<String>,
    /// Parameter names.
    pub parameters: Option<Vec<String>>,
    /// Index of the argument being typed.
    pub active_parameter: Option<u32>,
}

/// Signature help: one signature and the argument being typed.
pub struct SignatureHelp {
    /// Signatures (exactly one).
    pub signatures: Vec<SignatureInformation>,
    /// Index of the shown signature.
    pub active_signature: Option<u32>,
    /// Index of the argument being typed.
    pub active_parameter: Option<u32>,
}

/// The argument index shown for `active` among `n` parameters (the count
/// taken as a `u32`): `active` when it is in range, otherwise the last
/// parameter (zero when there is none).
pub open spec fn shown_parameter(active: int, n: int) -> int {
    if active < n {
        active
    } else if n > 0 {
        n - 1
    } else {
        0
    }
}

/// The help shown for a function entry and an argument index.
pub open spec fn help_matches(h: SignatureHelp, e: DocEntryView, active: int) -> bool {
    let p = shown_parameter(active, (e.params.len() as u32) as int);
    &&& h.signatures@.len() == 1
    &&& h.signatures@[0].label@ == e.syntax
    &&& h.signatures@[0].documentation matches Some(d) && d@ == e.description
    &&& h.signatures@[0].parameters matches Some(ps) && ps@.map_values(|s: String| s@)
        == e.params.map_values(|s: &'static str| s@)
    &&& h.signatures@[0].active_parameter == Some(p as u32)
    &&& h.active_signature == Some(0u32)
    &&& h.active_parameter == Some(p as u32)
}

/// The help for function `name` with argument `active` being typed: the
/// built-in function's signature, or nothing when no function has the name.
pub open spec fn help_for(name: Seq<char>, active: int, r: Option<SignatureHelp>) -> bool {
    match spec_lookup_function(name) {
        Some(e) => if e.category == DocCategory::Function {
            r matches Some(h) && help_matches(h, e, active)
        } else {
            r is None
        },
        None => r is None,
    }
}

/// Signature help for the function named `func_name` (upper case) with the
/// argument `active_param` being typed: `None` when no built-in function has
/// that name.
pub fn build_signature_help(func_name: &str, active_param: u32) -> (r: Option<SignatureHelp>)
    ensures
        help_for(func_name@, active_param as int, r),
{
    let entry = match lookup_function(func_name) {
        Some(e) => e,
        None => return None,
    };
    if !matches!(entry.category, DocCategory::Function) {
        return None;
    }
    let mut parameters: Vec<String> = Vec::new();
    let mut i: usize = 0;
    while i < entry.params.len()
        invariant
            i <= entry.params@.len(),
            parameters@.len() == i,
            forall|k: int| 0 <= k < i ==> parameters@[k]@ == entry.params@[k]@,
        decreases entry.params@.len() - i,
    {
        parameters.push(String::from_str(entry.params[i]));
        i = i + 1;
    }
    assert(parameters@.map_values(|s: String| s@) =~= entry@.params.map_values(|s: &'static str| s@));
    let n: u32 = parameters.len() as u32;
    let active_parameter: u32 = if active_param < n {
        active_param
    } else if n > 0 {
        n - 1
    } else {
        0
    };
    let info = SignatureInformation {
        label: String::from_str(entry.syntax),
        documentation: Some(String::from_str(entry.description)),
        parameters: Some(parameters),
        active_parameter: Some(active_parameter),
    };
    let mut signatures: Vec<SignatureInformation> = Vec::new();
    signatures.push(info);
    Some(SignatureHelp { signatures, active_signature: Some(0), active_parameter: Some(active_parameter) })
}

/// Signature help at an editor position: the signature of the innermost
/// built-in function call around the cursor, with the argument being typed.
pub fn signature_help_with_analysis(analysis: &DocumentAnalysis, position: Position) -> (r: Option<SignatureHelp>)
    requires
        analysis.index_matches(),
        analysis.tokens@.len() < i32::MAX,
    ensures
        match call_frame_at(
            analysis.tokens@,
            position_offset(analysis.line_index@, encode_utf8(analysis.source@), position),
        ) {
            Some(f) => help_for(f.name, f.active, r),
            None => r is None,
        },
{
    let offset = analysis.line_index.position_to_offset(analysis.source.as_str(), position);
    match scan_for_call_frame(&analysis.tokens, offset) {
        Some(frame) => build_signature_help(frame.func_name.as_str(), frame.active_param),
        None => None,
    }
}

} // verus!
