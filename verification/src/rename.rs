//! Rename: one edit for every token naming the symbol under the cursor.

use crate::analysis::{covering_token, tokens_sorted, DocumentAnalysis};
use crate::formatting::TextEdit;
use crate::line_index::{line_starts, position_offset, range_at, LineIndex};
use crate::matches_symbol;
use crate::position::{Position, Range};
use crate::references::dedup_adjacent;
use crate::symbol_table::{to_uppercase, uppercase};
use crate::text::{char_is_whitespace, chars_of, is_ws};
use crate::token::{OwnedToken, TokenKind};
use crate::token_matches_symbol;
use vstd::prelude::*;
use vstd::string::*;
use vstd::utf8::*;

verus! {

/// Content of a [`TextEdit`].
pub struct TextEditView {
    /// Range replaced.
    pub range: Range,
    /// Replacement text.
    pub new_text: Seq<char>,
}

impl View for TextEdit {
    type V = TextEditView;

    open spec fn view(&self) -> TextEditView {
        TextEditView { range: self.range, new_text: self.new_text@ }
    }
}

/// Edits of one document, per document.
pub struct WorkspaceEdit {
    /// Each document with its edits.
    pub changes: Vec<(String, Vec<TextEdit>)>,
}

/// Whether a new name is acceptable: a variable's new name starts with `@`,
/// and no new name is empty or all whitespace.
pub open spec fn valid_new_name(is_var: bool, new_name: Seq<char>) -> bool {
    &&& !is_var || (new_name.len() > 0 && new_name[0] == '@')
    &&& exists|i: int| 0 <= i < new_name.len() && !is_ws(#[trigger] new_name[i])
}

/// Ranges of the first `n` tokens naming the symbol whose upper-case name is
/// `search` (a variable when `is_var`).
pub open spec fn rename_ranges(li: Seq<u32>, ts: Seq<OwnedToken>, n: int, search: Seq<char>, is_var: bool) -> Seq<Range>
    decreases n,
{
    if n <= 0 {
        Seq::empty()
    } else {
        let prev = rename_ranges(li, ts, n - 1, search, is_var);
        let t = ts[n - 1];
        if matches_symbol(t.kind, t.text@, search, is_var) {
            prev.push(range_at(li, t.span.start as int, t.span.end as int))
        } else {
            prev
        }
    }
}

/// The edits renaming token `t` to `new_name` throughout `ts`: none when the
/// name is not acceptable or nothing names the symbol; otherwise one edit per
/// naming token, runs of equal ranges kept once.
pub open spec fn rename_edits(li: Seq<u32>, ts: Seq<OwnedToken>, t: OwnedToken, new_name: Seq<char>) -> Option<Seq<TextEditView>> {
    let is_var = t.kind == TokenKind::LocalVar;
    let rs = rename_ranges(li, ts, ts.len() as int, uppercase(t.text@), is_var);
    if !valid_new_name(is_var, new_name) || rs.len() == 0 {
        None
    } else {
        Some(dedup_adjacent(rs).map_values(|r: Range| TextEditView { range: r, new_text: new_name }))
    }
}

/// The workspace edit holds exactly `edits` for document `uri`.
pub open spec fn edit_is(w: WorkspaceEdit, uri: Seq<char>, edits: Seq<TextEditView>) -> bool {
    &&& w.changes@.len() == 1
    &&& w.changes@[0].0@ == uri
    &&& w.changes@[0].1@.map_values(|e: TextEdit| e@) == edits
}

fn is_valid_new_name(is_var: bool, new_name: &str) -> (r: bool)
    ensures
        r == valid_new_name(is_var, new_name@),
{
    let cs = chars_of(new_name);
    if is_var && !(cs.len() > 0 && cs[0] == '@') {
        return false;
    }
    let mut i: usize = 0;
    while i < cs.len()
        invariant
            cs@ == new_name@,
            i <= cs@.len(),
            !is_var || (cs@.len() > 0 && cs@[0] == '@'),
            forall|k: int| 0 <= k < i ==> is_ws(#[trigger] cs@[k]),
        decreases cs@.len() - i,
    {
        if !char_is_whitespace(cs[i]) {
            assert(!is_ws(new_name@[i as int]));
            return true;
        }
        i = i + 1;
    }
    false
}

fn build_rename(
    line_index: &LineIndex,
    tokens: &Vec<OwnedToken>,
    target: &OwnedToken,
    new_name: &str,
    uri: &String,
) -> (r: Option<WorkspaceEdit>)
    ensures
        match rename_edits(line_index@, tokens@, *target, new_name@) {
            Some(es) => r matches Some(w) && edit_is(w, uri@, es),
            None => r is None,
        },
{
    let search_upper = to_uppercase(target.text.as_str());
    let is_var = matches!(target.kind, TokenKind::LocalVar);
    if !is_valid_new_name(is_var, new_name) {
        return None;
    }
    let mut ranges: Vec<Range> = Vec::new();
    let mut i: usize = 0;
    while i < tokens.len()
        invariant
            i <= tokens@.len(),
            search_upper@ == uppercase(target.text@),
            ranges@ == rename_ranges(line_index@, tokens@, i as int, search_upper@, is_var),
        decreases tokens@.len() - i,
    {
        let token = &tokens[i];
        if token_matches_symbol(token.kind, token.text.as_str(), search_upper.as_str(), is_var) {
            ranges.push(line_index.offset_to_range(token.span.start, token.span.end));
        }
        i = i + 1;
    }
    if ranges.len() == 0 {
        return None;
    }
    let ghost rv = ranges@;
    let mut kept: Vec<Range> = Vec::new();
    let mut j: usize = 0;
    assert(rv.take(0) =~= Seq::<Range>::empty());
    while j < ranges.len()
        invariant
            j <= rv.len(),
            rv == ranges@,
            kept@ == dedup_adjacent(rv.take(j as int)),
        decreases rv.len() - j,
    {
        assert(rv.take(j + 1).drop_last() =~= rv.take(j as int));
        let n = kept.len();
        if !(n > 0 && kept[n - 1] == ranges[j]) {
            kept.push(ranges[j]);
        }
        j = j + 1;
    }
    assert(rv.take(rv.len() as int) =~= rv);
    let mut edits: Vec<TextEdit> = Vec::new();
    let mut k: usize = 0;
    while k < kept.len()
        invariant
            k <= kept@.len(),
            edits@.len() == k,
            forall|m: int| 0 <= m < k ==> (#[trigger] edits@[m])@ == (TextEditView { range: kept@[m], new_text: new_name@ }),
        decreases kept@.len() - k,
    {
        edits.push(TextEdit { range: kept[k], new_text: String::from_str(new_name) });
        k = k + 1;
    }
    assert(edits@.map_values(|e: TextEdit| e@) =~= kept@.map_values(|r: Range| TextEditView { range: r, new_text: new_name@ }));
    let mut changes: Vec<(String, Vec<TextEdit>)> = Vec::new();
    changes.push((uri.clone(), edits));
    Some(WorkspaceEdit { changes })
}

/// Rename the symbol under the cursor to `new_name` in document `uri` (see
/// [`rename_edits`]); nothing when no token is under the cursor.
pub fn rename_with_analysis(analysis: &DocumentAnalysis, position: Position, new_name: &str, uri: &String) -> (r: Option<WorkspaceEdit>)
    requires
        analysis.index_matches(),
    ensures
        ({
            let o = position_offset(analysis.line_index@, encode_utf8(analysis.source@), position);
            tokens_sorted(analysis.tokens@) ==> match covering_token(analysis.tokens@, o) {
                Some(i) => match rename_edits(analysis.line_index@, analysis.tokens@, analysis.tokens@[i], new_name@) {
                    Some(es) => r matches Some(w) && edit_is(w, uri@, es),
                    None => r is None,
                },
                None => r is None,
            }
        }),
{
    let (target, idx) = match analysis.find_token_at_position(position) {
        Some(t) => t,
        None => return None,
    };
    proof {
        let o = position_offset(analysis.line_index@, encode_utf8(analysis.source@), position);
        if tokens_sorted(analysis.tokens@) {
            crate::analysis::lemma_covering_unique(analysis.tokens@, o, idx as int);
        }
    }
    build_rename(&analysis.line_index, &analysis.tokens, target, new_name, uri)
}

/// The text of the token under the cursor, offered as the new name.
pub fn get_rename_placeholder_with_analysis(analysis: &DocumentAnalysis, position: Position) -> (r: Option<String>)
    requires
        analysis.index_matches(),
    ensures
        ({
            let o = position_offset(analysis.line_index@, encode_utf8(analysis.source@), position);
            tokens_sorted(analysis.tokens@) ==> match covering_token(analysis.tokens@, o) {
                Some(i) => r matches Some(s) && s@ == analysis.tokens@[i].text@,
                None => r is None,
            }
        }),
{
    let (token, idx) = match analysis.find_token_at_position(position) {
        Some(t) => t,
        None => return None,
    };
    proof {
        let o = position_offset(analysis.line_index@, encode_utf8(analysis.source@), position);
        if tokens_sorted(analysis.tokens@) {
            crate::analysis::lemma_covering_unique(analysis.tokens@, o, idx as int);
        }
    }
    Some(token.text.clone())
}

/// The range a rename applies to, with the current name as placeholder.
pub struct PrepareRename {
    /// Range of the token.
    pub range: Range,
    /// Current name.
    pub placeholder: String,
}

/// Whether a token can be renamed: identifiers and variables.
pub open spec fn renamable(k: TokenKind) -> bool {
    k == TokenKind::Ident || k == TokenKind::LocalVar || k == TokenKind::GlobalVar
}

/// The range and name of the token under the cursor, when it can be renamed.
pub fn prepare_rename_with_analysis(analysis: &DocumentAnalysis, position: Position) -> (r: Option<PrepareRename>)
    requires
        analysis.index_matches(),
    ensures
        ({
            let o = position_offset(analysis.line_index@, encode_utf8(analysis.source@), position);
            tokens_sorted(analysis.tokens@) ==> match covering_token(analysis.tokens@, o) {
                Some(i) => {
                    let t = analysis.tokens@[i];
                    if renamable(t.kind) {
                        r matches Some(p) && p.placeholder@ == t.text@ && p.range == range_at(
                            analysis.line_index@,
                            t.span.start as int,
                            t.span.end as int,
                        )
                    } else {
                        r is None
                    }
                },
                None => r is None,
            }
        }),
{
    let (token, idx) = match analysis.find_token_at_position(position) {
        Some(t) => t,
        None => return None,
    };
    proof {
        let o = position_offset(analysis.line_index@, encode_utf8(analysis.source@), position);
        if tokens_sorted(analysis.tokens@) {
            crate::analysis::lemma_covering_unique(analysis.tokens@, o, idx as int);
        }
    }
    if !matches!(token.kind, TokenKind::Ident | TokenKind::LocalVar | TokenKind::GlobalVar) {
        return None;
    }
    Some(PrepareRename {
        range: analysis.line_index.offset_to_range(token.span.start, token.span.end),
        placeholder: token.text.clone(),
    })
}

/// Index of the first token with `start <= offset < end`.
pub open spec fn first_token_at(ts: Seq<OwnedToken>, offset: int) -> Option<int>
    decreases ts.len(),
{
    if ts.len() == 0 {
        None
    } else {
        match first_token_at(ts.drop_last(), offset) {
            Some(i) => Some(i),
            None => if ts.last().span.start <= offset && offset < ts.last().span.end {
                Some(ts.len() - 1)
            } else {
                None
            },
        }
    }
}

proof fn lemma_first_token_prefix(ts: Seq<OwnedToken>, n: int, offset: int)
    requires
        0 <= n <= ts.len(),
        first_token_at(ts.take(n), offset) is Some,
    ensures
        first_token_at(ts, offset) == first_token_at(ts.take(n), offset),
    decreases ts.len() - n,
{
    if n < ts.len() {
        assert(ts.take(n + 1).drop_last() =~= ts.take(n));
        lemma_first_token_prefix(ts, n + 1, offset);
    } else {
        assert(ts.take(n) =~= ts);
    }
}

fn first_token_index(tokens: &Vec<OwnedToken>, offset: usize) -> (r: Option<usize>)
    ensures
        match r {
            Some(i) => i < tokens@.len() && first_token_at(tokens@, offset as int) == Some(i as int),
            None => first_token_at(tokens@, offset as int) is None,
        },
{
    let mut i: usize = 0;
    assert(tokens@.take(0) =~= Seq::<OwnedToken>::empty());
    while i < tokens.len()
        invariant
            i <= tokens@.len(),
            first_token_at(tokens@.take(i as int), offset as int) is None,
        decreases tokens@.len() - i,
    {
        assert(tokens@.take(i + 1).drop_last() =~= tokens@.take(i as int));
        let t = &tokens[i];
        if (t.span.start as usize) <= offset && offset < (t.span.end as usize) {
            proof {
                lemma_first_token_prefix(tokens@, i + 1, offset as int);
            }
            return Some(i);
        }
        i = i + 1;
    }
    assert(tokens@.take(tokens@.len() as int) =~= tokens@);
    None
}

/// Rename in a source text with its tokens: the target is the first token
/// covering the cursor; otherwise as [`rename_with_analysis`].
pub fn rename(source: &str, tokens: &Vec<OwnedToken>, position: Position, new_name: &str, uri: &String) -> (r: Option<WorkspaceEdit>)
    requires
        source.spec_bytes().len() <= u32::MAX,
    ensures
        ({
            let li = line_starts(source.spec_bytes());
            let o = position_offset(li, source.spec_bytes(), position);
            match first_token_at(tokens@, o) {
                Some(i) => match rename_edits(li, tokens@, tokens@[i], new_name@) {
                    Some(es) => r matches Some(w) && edit_is(w, uri@, es),
                    None => r is None,
                },
                None => r is None,
            }
        }),
{
    let line_index = LineIndex::new(source);
    let offset = line_index.position_to_offset(source, position);
    match first_token_index(tokens, offset) {
        Some(i) => build_rename(&line_index, tokens, &tokens[i], new_name, uri),
        None => None,
    }
}

/// The text of the first token covering the cursor in a source text.
pub fn get_rename_placeholder(source: &str, tokens: &Vec<OwnedToken>, position: Position) -> (r: Option<String>)
    requires
        source.spec_bytes().len() <= u32::MAX,
    ensures
        ({
            let li = line_starts(source.spec_bytes());
            let o = position_offset(li, source.spec_bytes(), position);
            match first_token_at(tokens@, o) {
                Some(i) => r matches Some(s) && s@ == tokens@[i].text@,
                None => r is None,
            }
        }),
{
    let line_index = LineIndex::new(source);
    let offset = line_index.position_to_offset(source, position);
    match first_token_index(tokens, offset) {
        Some(i) => Some(tokens[i].text.clone()),
        None => None,
    }
}

} // verus!
