//! Code lens: a reference count above each table, procedure and view
//! definition, computed when the editor resolves the lens.

use crate::analysis::{tokens_sorted, DocumentAnalysis};
use crate::completion::{decimal, push_decimal};
use crate::position::{Position, Range};
use crate::references::{reference_ranges, reference_ranges_with_analysis, tokens_in_source};
use crate::symbol_table::{entry_models, ProcedureModel, TableModel, ViewModel};
use vstd::prelude::*;
use vstd::string::*;

verus! {

/// What a lens carries for its resolution: the owning document and the
/// position of the definition name.
pub struct LensData {
    /// Owning document.
    pub uri: String,
    /// Line of the definition name.
    pub line: u32,
    /// Character of the definition name.
    pub character: u32,
}

/// A command shown by a lens.
pub struct Command {
    /// Title shown.
    pub title: String,
    /// Command identifier (empty: informational).
    pub command: String,
}

/// A code lens.
pub struct CodeLens {
    /// Range of the definition name.
    pub range: Range,
    /// Command, once resolved.
    pub command: Option<Command>,
    /// Resolution data.
    pub data: Option<LensData>,
}

/// Ranges of the lenses of a document: tables, then procedures, then views.
pub open spec fn lens_ranges(a: &DocumentAnalysis) -> Seq<Range> {
    a.symbol_table@.tables.map_values(|e: (Seq<char>, TableModel)| e.1.range)
        + a.symbol_table@.procedures.map_values(|e: (Seq<char>, ProcedureModel)| e.1.range)
        + a.symbol_table@.views.map_values(|e: (Seq<char>, ViewModel)| e.1.range)
}

/// The lens is unresolved, at `range`, pointing at `range.start` of `uri`.
pub open spec fn unresolved_lens(l: CodeLens, range: Range, uri: Seq<char>) -> bool {
    &&& l.range == range
    &&& l.command is None
    &&& l.data matches Some(d) && d.uri@ == uri && d.line == range.start.line && d.character == range.start.character
}

fn make_lens(range: Range, uri: &String) -> (l: CodeLens)
    ensures
        unresolved_lens(l, range, uri@),
{
    CodeLens {
        range,
        command: None,
        data: Some(LensData { uri: uri.clone(), line: range.start.line, character: range.start.character }),
    }
}

/// Unresolved lenses above every table, procedure and view definition of a
/// document, in that order.
pub fn code_lenses(analysis: &DocumentAnalysis, uri: &String) -> (r: Vec<CodeLens>)
    ensures
        r@.len() == lens_ranges(analysis).len(),
        forall|i: int| 0 <= i < r@.len() ==> unresolved_lens(#[trigger] r@[i], lens_ranges(analysis)[i], uri@),
{
    let st = &analysis.symbol_table;
    let ghost rs = lens_ranges(analysis);
    let ghost nt = st.tables@.len();
    let ghost np = st.procedures@.len();
    let mut lenses: Vec<CodeLens> = Vec::new();
    let mut i: usize = 0;
    while i < st.tables.len()
        invariant
            i <= st.tables@.len(),
            lenses@.len() == i,
            forall|k: int| 0 <= k < i ==> unresolved_lens(#[trigger] lenses@[k], entry_models(st.tables@)[k].1.range, uri@),
        decreases st.tables@.len() - i,
    {
        let (_, t) = st.tables.entry_at(i);
        lenses.push(make_lens(t.range, uri));
        i = i + 1;
    }
    let mut j: usize = 0;
    while j < st.procedures.len()
        invariant
            j <= st.procedures@.len(),
            lenses@.len() == st.tables@.len() + j,
            forall|k: int| 0 <= k < st.tables@.len() ==> unresolved_lens(#[trigger] lenses@[k], entry_models(st.tables@)[k].1.range, uri@),
            forall|k: int| 0 <= k < j ==> unresolved_lens(#[trigger] lenses@[st.tables@.len() + k], entry_models(st.procedures@)[k].1.range, uri@),
        decreases st.procedures@.len() - j,
    {
        let (_, p) = st.procedures.entry_at(j);
        lenses.push(make_lens(p.range, uri));
        j = j + 1;
    }
    let mut k: usize = 0;
    while k < st.views.len()
        invariant
            k <= st.views@.len(),
            lenses@.len() == st.tables@.len() + st.procedures@.len() + k,
            forall|m: int| 0 <= m < st.tables@.len() ==> unresolved_lens(#[trigger] lenses@[m], entry_models(st.tables@)[m].1.range, uri@),
            forall|m: int| 0 <= m < st.procedures@.len() ==> unresolved_lens(#[trigger] lenses@[st.tables@.len() + m], entry_models(st.procedures@)[m].1.range, uri@),
            forall|m: int| 0 <= m < k ==> unresolved_lens(#[trigger] lenses@[st.tables@.len() + st.procedures@.len() + m], entry_models(st.views@)[m].1.range, uri@),
        decreases st.views@.len() - k,
    {
        let (_, v) = st.views.entry_at(k);
        lenses.push(make_lens(v.range, uri));
        k = k + 1;
    }
    proof {
        assert forall|i: int| 0 <= i < lenses@.len() implies unresolved_lens(#[trigger] lenses@[i], rs[i], uri@) by {
            if i < nt {
            } else if i < nt + np {
                assert(lenses@[i] == lenses@[nt + (i - nt)]);
            } else {
                assert(lenses@[i] == lenses@[nt + np + (i - nt - np)]);
            }
        }
    }
    lenses
}

/// The document owning a lens, when the lens carries its data.
pub fn lens_uri(lens: &CodeLens) -> (r: Option<String>)
    ensures
        match lens.data {
            Some(d) => r matches Some(u) && u@ == d.uri@,
            None => r is None,
        },
{
    match &lens.data {
        Some(d) => Some(d.uri.clone()),
        None => None,
    }
}

/// Title of a lens for `n` references: `1 reference`, otherwise `n
/// references`.
pub open spec fn lens_title(n: nat) -> Seq<char> {
    if n == 1 {
        "1 reference"@
    } else {
        decimal(n) + " references"@
    }
}

/// The command of a resolved lens: no command identifier, and as title
/// the reference count (definitions left out) of the symbol at `p`.
pub open spec fn resolved_title(c: Option<Command>, a: &DocumentAnalysis, p: Position) -> bool {
    &&& c matches Some(cmd)
    &&& c->0.command@.len() == 0
    &&& tokens_sorted(a.tokens@) ==> c->0.title@ == lens_title(reference_ranges(a, p, false).len())
}

/// Resolve a lens: count the references (definitions left out) of the
/// symbol at the lens's recorded position and show the count as its title;
/// `None` when the lens carries no data.
pub fn resolve_lens(lens: CodeLens, analysis: &DocumentAnalysis) -> (r: Option<CodeLens>)
    requires
        analysis.index_matches(),
        tokens_in_source(analysis),
    ensures
        match lens.data {
            Some(d) => r matches Some(l) && l.range == lens.range && l.data == lens.data && resolved_title(
                l.command,
                analysis,
                Position { line: d.line, character: d.character },
            ),
            None => r is None,
        },
{
    let (line, character) = match &lens.data {
        Some(d) => (d.line, d.character),
        None => return None,
    };
    let count = reference_ranges_with_analysis(analysis, Position { line, character }, false).len();
    let title = if count == 1 {
        String::from_str("1 reference")
    } else {
        let mut t = String::new();
        push_decimal(&mut t, count);
        t.append(" references");
        t
    };
    assert(count != 1 ==> title@ =~= decimal(count as nat) + " references"@);
    Some(CodeLens { range: lens.range, command: Some(Command { title, command: String::new() }), data: lens.data })
}

} // verus!
