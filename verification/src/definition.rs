//! Go to definition: the declarations of the symbol under the cursor, from
//! the document's symbol table, or for objects from the cross-file index.

use crate::analysis::{covering_token, tokens_sorted, DocumentAnalysis};
use crate::line_index::position_offset;
use crate::position::{Position, Range};
use crate::references::{in_document, locations_view, Location, LocationView};
use crate::symbol_store::{entries_view, group, SymbolKind, SymbolStore};
use crate::symbol_table::{
    entry_models, uppercase, value_of, variable_lookup_name, ParameterModel, ProcedureModel,
    SymbolTable, SymbolTableBuilder, VariableModel,
};
use crate::text::{eq_ignore_ascii, eq_ignore_ascii_case};
use crate::token::TokenKind;
use vstd::prelude::*;
use vstd::utf8::*;

verus! {

/// Ranges of the body variables and parameters named `name` (ASCII letters
/// in any case) of one procedure: body variables first.
pub open spec fn procedure_variable_ranges(p: ProcedureModel, name: Seq<char>) -> Seq<Range> {
    p.body_variables.filter(|v: VariableModel| eq_ignore_ascii(v.name, name)).map_values(|v: VariableModel| v.range)
        + p.parameters.filter(|q: ParameterModel| eq_ignore_ascii(q.name, name)).map_values(|q: ParameterModel| q.range)
}

/// Ranges of the body variables and parameters named `name` of every
/// procedure, procedure by procedure.
pub open spec fn procedures_variable_ranges(ps: Seq<(Seq<char>, ProcedureModel)>, name: Seq<char>) -> Seq<Range>
    decreases ps.len(),
{
    if ps.len() == 0 {
        Seq::empty()
    } else {
        procedures_variable_ranges(ps.drop_last(), name) + procedure_variable_ranges(ps.last().1, name)
    }
}

/// Definitions of a variable: the top-level declaration, then the body
/// variables and parameters of every procedure with that name.
pub open spec fn variable_definitions(t: &SymbolTable, name: Seq<char>) -> Seq<Range> {
    (match value_of(t.variables@, uppercase(variable_lookup_name(name))) {
        Some(v) => seq![v.range],
        None => Seq::empty(),
    }) + procedures_variable_ranges(t@.procedures, name)
}

/// Definitions of an object: the table, procedure, view, index and trigger
/// of that name, in that order.
pub open spec fn object_definitions(t: &SymbolTable, name: Seq<char>) -> Seq<Range> {
    let k = uppercase(name);
    (match value_of(t.tables@, k) { Some(x) => seq![x.range], None => Seq::empty() })
        + (match value_of(t.procedures@, k) { Some(x) => seq![x.range], None => Seq::empty() })
        + (match value_of(t.views@, k) { Some(x) => seq![x.range], None => Seq::empty() })
        + (match value_of(t.indexes@, k) { Some(x) => seq![x.range], None => Seq::empty() })
        + (match value_of(t.triggers@, k) { Some(x) => seq![x.range], None => Seq::empty() })
}

proof fn lemma_filter_push<T>(s: Seq<T>, x: T, f: spec_fn(T) -> bool)
    ensures
        s.push(x).filter(f) == if f(x) { s.filter(f).push(x) } else { s.filter(f) },
{
    reveal(Seq::filter);
    assert(s.push(x).drop_last() =~= s);
}

fn find_variable_definition(table: &SymbolTable, name: &str) -> (r: Vec<Range>)
    ensures
        r@ == variable_definitions(table, name@),
{
    let mut results: Vec<Range> = Vec::new();
    match SymbolTableBuilder::find_variable(table, name) {
        Some(v) => {
            results.push(v.range);
        },
        None => {},
    }
    let ghost head = results@;
    let ghost ps = table@.procedures;
    let mut p: usize = 0;
    assert(ps.take(0) =~= Seq::<(Seq<char>, ProcedureModel)>::empty());
    assert(results@ =~= head + procedures_variable_ranges(ps.take(0), name@));
    while p < table.procedures.len()
        invariant
            p <= table.procedures@.len(),
            ps == entry_models(table.procedures@),
            results@ == head + procedures_variable_ranges(ps.take(p as int), name@),
        decreases table.procedures@.len() - p,
    {
        let (_, proc) = table.procedures.entry_at(p);
        assert(ps.take(p + 1).drop_last() =~= ps.take(p as int));
        assert(ps.take(p + 1).last().1 == proc@);
        let ghost base = results@;
        let ghost vs = proc@.body_variables;
        let ghost f = |v: VariableModel| eq_ignore_ascii(v.name, name@);
        let mut i: usize = 0;
        assert(vs.take(0) =~= Seq::<VariableModel>::empty());
        assert(vs.take(0).filter(f) =~= Seq::<VariableModel>::empty()) by {
            reveal(Seq::filter);
        }
        while i < proc.body_variables.len()
            invariant
                i <= proc.body_variables@.len(),
                vs == proc@.body_variables,
                f == (|v: VariableModel| eq_ignore_ascii(v.name, name@)),
                results@ == base + vs.take(i as int).filter(f).map_values(|v: VariableModel| v.range),
            decreases proc.body_variables@.len() - i,
        {
            let v = &proc.body_variables[i];
            assert(vs.take(i + 1) =~= vs.take(i as int).push(v@));
            proof {
                lemma_filter_push(vs.take(i as int), v@, f);
            }
            let ghost before = results@;
            if eq_ignore_ascii_case(v.name.as_str(), name) {
                results.push(v.range);
            }
            assert(results@ =~= base + vs.take(i + 1).filter(f).map_values(|v: VariableModel| v.range));
            i = i + 1;
        }
        assert(vs.take(vs.len() as int) =~= vs);
        let ghost mid = results@;
        let ghost qs = proc@.parameters;
        let ghost g = |q: ParameterModel| eq_ignore_ascii(q.name, name@);
        let mut j: usize = 0;
        assert(qs.take(0) =~= Seq::<ParameterModel>::empty());
        assert(qs.take(0).filter(g) =~= Seq::<ParameterModel>::empty()) by {
            reveal(Seq::filter);
        }
        while j < proc.parameters.len()
            invariant
                j <= proc.parameters@.len(),
                qs == proc@.parameters,
                g == (|q: ParameterModel| eq_ignore_ascii(q.name, name@)),
                results@ == mid + qs.take(j as int).filter(g).map_values(|q: ParameterModel| q.range),
            decreases proc.parameters@.len() - j,
        {
            let q = &proc.parameters[j];
            assert(qs.take(j + 1) =~= qs.take(j as int).push(q@));
            proof {
                lemma_filter_push(qs.take(j as int), q@, g);
            }
            if eq_ignore_ascii_case(q.name.as_str(), name) {
                results.push(q.range);
            }
            assert(results@ =~= mid + qs.take(j + 1).filter(g).map_values(|q: ParameterModel| q.range));
            j = j + 1;
        }
        assert(qs.take(qs.len() as int) =~= qs);
        assert(results@ =~= head + procedures_variable_ranges(ps.take(p + 1), name@));
        p = p + 1;
    }
    assert(ps.take(ps.len() as int) =~= ps);
    results
}

fn find_object_definition(table: &SymbolTable, name: &str) -> (r: Vec<Range>)
    ensures
        r@ == object_definitions(table, name@),
{
    let mut results: Vec<Range> = Vec::new();
    match SymbolTableBuilder::find_table(table, name) {
        Some(x) => {
            results.push(x.range);
        },
        None => {},
    }
    match SymbolTableBuilder::find_procedure(table, name) {
        Some(x) => {
            results.push(x.range);
        },
        None => {},
    }
    match SymbolTableBuilder::find_view(table, name) {
        Some(x) => {
            results.push(x.range);
        },
        None => {},
    }
    match SymbolTableBuilder::find_index(table, name) {
        Some(x) => {
            results.push(x.range);
        },
        None => {},
    }
    match SymbolTableBuilder::find_trigger(table, name) {
        Some(x) => {
            results.push(x.range);
        },
        None => {},
    }
    assert(results@ =~= object_definitions(table, name@));
    results
}

/// Definitions in the current document of the symbol under the cursor:
/// those of a variable or those of an object.
pub open spec fn definition_ranges(a: &DocumentAnalysis, position: Position) -> Seq<Range> {
    let o = position_offset(a.line_index@, encode_utf8(a.source@), position);
    match covering_token(a.tokens@, o) {
        Some(i) => if a.tokens@[i].kind == TokenKind::LocalVar {
            variable_definitions(&a.symbol_table, a.tokens@[i].text@)
        } else {
            object_definitions(&a.symbol_table, a.tokens@[i].text@)
        },
        None => Seq::empty(),
    }
}

/// Definitions in the current document of the symbol under the cursor (see
/// [`definition_ranges`]).
pub fn definition_ranges_with_analysis(analysis: &DocumentAnalysis, position: Position) -> (r: Vec<Range>)
    requires
        analysis.index_matches(),
    ensures
        tokens_sorted(analysis.tokens@) ==> r@ == definition_ranges(analysis, position),
{
    let (target, idx) = match analysis.find_token_at_position(position) {
        Some(t) => t,
        None => return Vec::new(),
    };
    proof {
        let o = position_offset(analysis.line_index@, encode_utf8(analysis.source@), position);
        if tokens_sorted(analysis.tokens@) {
            crate::analysis::lemma_covering_unique(analysis.tokens@, o, idx as int);
        }
    }
    if matches!(target.kind, TokenKind::LocalVar) {
        find_variable_definition(&analysis.symbol_table, target.text.as_str())
    } else {
        find_object_definition(&analysis.symbol_table, target.text.as_str())
    }
}

/// Stored definitions that are not variables, as locations.
pub open spec fn stored_definitions(entries: Seq<crate::symbol_store::SymbolEntryView>) -> Seq<LocationView>
    decreases entries.len(),
{
    if entries.len() == 0 {
        Seq::empty()
    } else {
        let e = entries.last();
        stored_definitions(entries.drop_last()) + if e.kind == SymbolKind::Variable {
            Seq::empty()
        } else {
            seq![LocationView { uri: e.uri, range: e.range }]
        }
    }
}

/// Cross-file definitions of the symbol under the cursor: a variable's stay
/// in the current document; an object's come from the current document when
/// it defines the object, otherwise from the stored definitions of every
/// document (variables left out).
pub open spec fn definition_locations_of(
    store: &SymbolStore,
    a: &DocumentAnalysis,
    current: Seq<char>,
    position: Position,
) -> Seq<LocationView> {
    let o = position_offset(a.line_index@, encode_utf8(a.source@), position);
    match covering_token(a.tokens@, o) {
        Some(i) => {
            let t = a.tokens@[i];
            if t.kind == TokenKind::LocalVar {
                in_document(variable_definitions(&a.symbol_table, t.text@), current)
            } else if object_definitions(&a.symbol_table, t.text@).len() > 0 {
                in_document(object_definitions(&a.symbol_table, t.text@), current)
            } else {
                stored_definitions(group(store@, uppercase(t.text@)))
            }
        },
        None => Seq::empty(),
    }
}

fn ranges_in(ranges: Vec<Range>, uri: &String) -> (r: Vec<Location>)
    ensures
        locations_view(r@) == in_document(ranges@, uri@),
{
    let mut r: Vec<Location> = Vec::new();
    let mut i: usize = 0;
    while i < ranges.len()
        invariant
            i <= ranges@.len(),
            r@.len() == i,
            forall|k: int| 0 <= k < i ==> (#[trigger] r@[k])@ == (LocationView { uri: uri@, range: ranges@[k] }),
        decreases ranges@.len() - i,
    {
        r.push(Location { uri: uri.clone(), range: ranges[i] });
        i = i + 1;
    }
    assert(locations_view(r@) =~= in_document(ranges@, uri@));
    r
}

/// Cross-file definitions (see [`definition_locations_of`]).
pub fn definition_locations(
    store: &SymbolStore,
    analysis: &DocumentAnalysis,
    current_uri: &String,
    position: Position,
) -> (r: Vec<Location>)
    requires
        analysis.index_matches(),
    ensures
        tokens_sorted(analysis.tokens@) ==> locations_view(r@) == definition_locations_of(
            store,
            analysis,
            current_uri@,
            position,
        ),
{
    let (target, idx) = match analysis.find_token_at_position(position) {
        Some(t) => t,
        None => return Vec::new(),
    };
    proof {
        let o = position_offset(analysis.line_index@, encode_utf8(analysis.source@), position);
        if tokens_sorted(analysis.tokens@) {
            crate::analysis::lemma_covering_unique(analysis.tokens@, o, idx as int);
        }
    }
    if matches!(target.kind, TokenKind::LocalVar) {
        let ranges = find_variable_definition(&analysis.symbol_table, target.text.as_str());
        return ranges_in(ranges, current_uri);
    }
    let local = find_object_definition(&analysis.symbol_table, target.text.as_str());
    if local.len() > 0 {
        return ranges_in(local, current_uri);
    }
    let entries = store.lookup(target.text.as_str());
    let ghost ev = entries_view(entries@);
    let mut out: Vec<Location> = Vec::new();
    let mut k: usize = 0;
    assert(ev.take(0) =~= Seq::<crate::symbol_store::SymbolEntryView>::empty());
    assert(locations_view(out@) =~= stored_definitions(ev.take(0)));
    while k < entries.len()
        invariant
            k <= entries@.len(),
            ev == entries_view(entries@),
            locations_view(out@) == stored_definitions(ev.take(k as int)),
        decreases entries@.len() - k,
    {
        assert(ev.take(k + 1).drop_last() =~= ev.take(k as int));
        assert(ev.take(k + 1).last() == entries@[k as int]@);
        let e = &entries[k];
        if !matches!(e.kind, SymbolKind::Variable) {
            let ghost before = out@;
            out.push(Location { uri: e.uri.clone(), range: e.range });
            assert(locations_view(out@) =~= locations_view(before).push(out@.last()@));
        }
        assert(locations_view(out@) =~= stored_definitions(ev.take(k + 1)));
        k = k + 1;
    }
    assert(ev.take(ev.len() as int) =~= ev);
    out
}

} // verus!
