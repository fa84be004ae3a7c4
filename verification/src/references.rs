//! Find references: every token naming the symbol under the cursor, in the
//! current document and, for objects, in every known document.

use crate::analysis::{ascii_lower_byte, covering_token, tokens_sorted, DocumentAnalysis};
use crate::line_index::{position_offset, range_at};
use crate::position::{Position, Range};
use crate::symbol_store::{entries_view, group, SymbolEntry, SymbolKind, SymbolStore};
use crate::symbol_table::uppercase;
use crate::text::{chars_before, chars_before_byte, string_of, trim_end, trim_end_len};
use crate::token::{OwnedToken, TokenKind};
use crate::{matches_symbol, token_matches_symbol};
use vstd::prelude::*;
use vstd::string::*;
use vstd::utf8::*;

verus! {

/// Whether `h` ends with `suf`, ASCII letters compared case-insensitively.
pub open spec fn ends_with_ci(h: Seq<u8>, suf: Seq<u8>) -> bool {
    &&& suf.len() <= h.len()
    &&& forall|k: int| 0 <= k < suf.len() ==> ascii_lower_byte(#[trigger] h[h.len() - suf.len() + k])
        == ascii_lower_byte(suf[k])
}

/// Whether `haystack` ends with `suffix`, comparing bytes with ASCII letters
/// case-insensitively.
pub fn ends_with_ignore_ascii_case(haystack: &str, suffix: &str) -> (r: bool)
    ensures
        r == ends_with_ci(haystack.spec_bytes(), suffix.spec_bytes()),
{
    let h = haystack.as_bytes();
    let s = suffix.as_bytes();
    let hl = h.len();
    let sl = s.len();
    if sl > hl {
        return false;
    }
    let off = hl - sl;
    let mut k: usize = 0;
    while k < sl
        invariant
            h@ == haystack.spec_bytes(),
            s@ == suffix.spec_bytes(),
            hl == h@.len(),
            sl == s@.len(),
            s@.len() <= h@.len(),
            off == h@.len() - s@.len(),
            k <= s@.len(),
            forall|j: int| 0 <= j < k ==> ascii_lower_byte(#[trigger] h@[h@.len() - s@.len() + j])
                == ascii_lower_byte(s@[j]),
        decreases s@.len() - k,
    {
        let a = h[off + k];
        let b = s[k];
        let la = if 65 <= a && a <= 90 { a + 32 } else { a };
        let lb = if 65 <= b && b <= 90 { b + 32 } else { b };
        if la != lb {
            proof {
                let hb = haystack.spec_bytes();
                let sb = suffix.spec_bytes();
                assert(hb == h@ && sb == s@);
                assert(ascii_lower_byte(hb[hb.len() - sb.len() + k]) != ascii_lower_byte(sb[k as int]));
            }
            return false;
        }
        k = k + 1;
    }
    true
}

/// Whether the text before a token marks it as a definition: for a
/// variable, `DECLARE` or a comma right before it; for an object, `CREATE
/// TABLE`, `CREATE PROCEDURE`, `CREATE VIEW`, `CREATE INDEX`, `CREATE UNIQUE
/// INDEX` or `CREATE TRIGGER` (whitespace before the token ignored, ASCII
/// letters in any case).
pub open spec fn is_definition_at(src: Seq<char>, start: int, is_var: bool) -> bool {
    let t = trim_end(chars_before_byte(src, start));
    let b = encode_utf8(t);
    if is_var {
        ends_with_ci(b, "DECLARE".spec_bytes()) || (t.len() > 0 && t.last() == ',')
    } else {
        ends_with_ci(b, "CREATE TABLE".spec_bytes()) || ends_with_ci(b, "CREATE PROCEDURE".spec_bytes())
            || ends_with_ci(b, "CREATE VIEW".spec_bytes()) || ends_with_ci(b, "CREATE INDEX".spec_bytes())
            || ends_with_ci(b, "CREATE UNIQUE INDEX".spec_bytes()) || ends_with_ci(b, "CREATE TRIGGER".spec_bytes())
    }
}

/// Whether the token starting at byte `span_start` is a definition (see
/// [`is_definition_at`]).
pub fn is_definition_token(source: &str, span_start: usize, is_var: bool) -> (r: bool)
    requires
        span_start <= source.spec_bytes().len(),
        is_char_boundary(source.spec_bytes(), span_start as int),
    ensures
        r == is_definition_at(source@, span_start as int, is_var),
{
    let before = chars_before(source, span_start);
    let n = trim_end_len(&before);
    proof {
        crate::text::lemma_trim_end(before@);
    }
    let trimmed = string_of(&before, 0, n);
    let t = trimmed.as_str();
    if is_var {
        ends_with_ignore_ascii_case(t, "DECLARE") || (n > 0 && before[n - 1] == ',')
    } else {
        ends_with_ignore_ascii_case(t, "CREATE TABLE") || ends_with_ignore_ascii_case(t, "CREATE PROCEDURE")
            || ends_with_ignore_ascii_case(t, "CREATE VIEW") || ends_with_ignore_ascii_case(t, "CREATE INDEX")
            || ends_with_ignore_ascii_case(t, "CREATE UNIQUE INDEX")
            || ends_with_ignore_ascii_case(t, "CREATE TRIGGER")
    }
}

/// Every token of the analysis starts inside its source text, at a
/// character boundary.
pub open spec fn tokens_in_source(a: &DocumentAnalysis) -> bool {
    forall|i: int| 0 <= i < a.tokens@.len() ==> {
        let s = (#[trigger] a.tokens@[i]).span.start as int;
        s <= encode_utf8(a.source@).len() && is_char_boundary(encode_utf8(a.source@), s)
    }
}

/// Ranges of the tokens naming the symbol written `target` (a variable when
/// `is_var`), leaving out definitions unless `with_decls`.
pub open spec fn matching_ranges(a: &DocumentAnalysis, n: int, target: Seq<char>, is_var: bool, with_decls: bool) -> Seq<Range>
    decreases n,
{
    if n <= 0 {
        Seq::empty()
    } else {
        let prev = matching_ranges(a, n - 1, target, is_var, with_decls);
        let t = a.tokens@[n - 1];
        if matches_symbol(t.kind, t.text@, target, is_var) && (with_decls || !is_definition_at(
            a.source@,
            t.span.start as int,
            is_var,
        )) {
            prev.push(range_at(a.line_index@, t.span.start as int, t.span.end as int))
        } else {
            prev
        }
    }
}

/// A name right after `CREATE TABLE`, `CREATE PROCEDURE`, `CREATE VIEW`,
/// `CREATE INDEX`, `CREATE UNIQUE INDEX` or `CREATE TRIGGER` (whitespace
/// between ignored, ASCII letters in any case) is a definition, so
/// references without declarations leave that token out: the ranges found
/// up to it are those found up to the token before.
pub proof fn law_created_object_is_not_a_reference(a: &DocumentAnalysis, n: int, target: Seq<char>, marker: &str)
    requires
        0 < n <= a.tokens@.len(),
        marker == "CREATE TABLE" || marker == "CREATE PROCEDURE" || marker == "CREATE VIEW" || marker
            == "CREATE INDEX" || marker == "CREATE UNIQUE INDEX" || marker == "CREATE TRIGGER",
        ends_with_ci(
            encode_utf8(trim_end(chars_before_byte(a.source@, a.tokens@[n - 1].span.start as int))),
            marker.spec_bytes(),
        ),
    ensures
        is_definition_at(a.source@, a.tokens@[n - 1].span.start as int, false),
        matching_ranges(a, n, target, false, false) == matching_ranges(a, n - 1, target, false, false),
{
}

/// A variable name right after `DECLARE` (ASCII letters in any case), or
/// right after a comma, whitespace between ignored, is a definition, so
/// references without declarations leave that token out.
pub proof fn law_declared_variable_is_not_a_reference(a: &DocumentAnalysis, n: int, target: Seq<char>)
    requires
        0 < n <= a.tokens@.len(),
        ({
            let t = trim_end(chars_before_byte(a.source@, a.tokens@[n - 1].span.start as int));
            ends_with_ci(encode_utf8(t), "DECLARE".spec_bytes()) || (t.len() > 0 && t.last() == ',')
        }),
    ensures
        is_definition_at(a.source@, a.tokens@[n - 1].span.start as int, true),
        matching_ranges(a, n, target, true, false) == matching_ranges(a, n - 1, target, true, false),
{
}

/// Every reference found without declarations is also found with them.
pub proof fn law_references_without_declarations_among_all(
    a: &DocumentAnalysis,
    n: int,
    target: Seq<char>,
    is_var: bool,
)
    ensures
        forall|k: int|
            0 <= k < matching_ranges(a, n, target, is_var, false).len() ==> matching_ranges(
                a,
                n,
                target,
                is_var,
                true,
            ).contains(#[trigger] matching_ranges(a, n, target, is_var, false)[k]),
    decreases n,
{
    if n > 0 {
        law_references_without_declarations_among_all(a, n - 1, target, is_var);
        let pf = matching_ranges(a, n - 1, target, is_var, false);
        let pt = matching_ranges(a, n - 1, target, is_var, true);
        let f = matching_ranges(a, n, target, is_var, false);
        let t = matching_ranges(a, n, target, is_var, true);
        assert forall|k: int| 0 <= k < f.len() implies t.contains(#[trigger] f[k]) by {
            if k < pf.len() {
                assert(f[k] == pf[k]);
                let j = choose|j: int| 0 <= j < pt.len() && pt[j] == pf[k];
                assert(t[j] == pt[j]);
            } else {
                assert(t[t.len() - 1] == f[k]);
            }
        }
    }
}

/// A sequence without runs of equal neighbours (the first of each run kept).
pub open spec fn dedup_adjacent<T>(s: Seq<T>) -> Seq<T>
    decreases s.len(),
{
    if s.len() == 0 {
        s
    } else {
        let p = dedup_adjacent(s.drop_last());
        if p.len() > 0 && p.last() == s.last() {
            p
        } else {
            p.push(s.last())
        }
    }
}

proof fn lemma_dedup_last<T>(s: Seq<T>)
    ensures
        s.len() > 0 ==> dedup_adjacent(s).len() > 0 && dedup_adjacent(s).last() == s.last(),
        s.len() == 0 ==> dedup_adjacent(s).len() == 0,
    decreases s.len(),
{
    if s.len() > 0 {
        lemma_dedup_last(s.drop_last());
    }
}

/// References of the symbol under the cursor in the current document: the
/// ranges of the tokens naming it, in order, definitions left out unless
/// `include_declaration`, runs of equal ranges kept once.
pub open spec fn reference_ranges(a: &DocumentAnalysis, position: Position, with_decls: bool) -> Seq<Range> {
    let o = position_offset(a.line_index@, encode_utf8(a.source@), position);
    match covering_token(a.tokens@, o) {
        Some(i) => {
            let target = a.tokens@[i];
            dedup_adjacent(matching_ranges(
                a,
                a.tokens@.len() as int,
                target.text@,
                target.kind == TokenKind::LocalVar,
                with_decls,
            ))
        },
        None => Seq::empty(),
    }
}

fn dedup_ranges(v: Vec<Range>) -> (r: Vec<Range>)
    ensures
        r@ == dedup_adjacent(v@),
{
    let mut r: Vec<Range> = Vec::new();
    let mut i: usize = 0;
    assert(v@.take(0) =~= Seq::<Range>::empty());
    while i < v.len()
        invariant
            i <= v@.len(),
            r@ == dedup_adjacent(v@.take(i as int)),
        decreases v@.len() - i,
    {
        assert(v@.take(i + 1).drop_last() =~= v@.take(i as int));
        let n = r.len();
        if n > 0 && r[n - 1] == v[i] {
        } else {
            r.push(v[i]);
        }
        i = i + 1;
    }
    assert(v@.take(v@.len() as int) =~= v@);
    r
}

/// References of the symbol under the cursor in the current document (see
/// [`reference_ranges`]).
pub fn reference_ranges_with_analysis(analysis: &DocumentAnalysis, position: Position, include_declaration: bool) -> (r: Vec<Range>)
    requires
        analysis.index_matches(),
        tokens_in_source(analysis),
    ensures
        tokens_sorted(analysis.tokens@) ==> r@ == reference_ranges(analysis, position, include_declaration),
{
    let (target, idx) = match analysis.find_token_at_position(position) {
        Some(t) => t,
        None => {
            return Vec::new();
        },
    };
    proof {
        let o = position_offset(analysis.line_index@, encode_utf8(analysis.source@), position);
        if tokens_sorted(analysis.tokens@) {
            crate::analysis::lemma_covering_unique(analysis.tokens@, o, idx as int);
        }
    }
    let is_var = matches!(target.kind, TokenKind::LocalVar);
    let mut refs: Vec<Range> = Vec::new();
    let mut i: usize = 0;
    while i < analysis.tokens.len()
        invariant
            i <= analysis.tokens@.len(),
            tokens_in_source(analysis),
            is_var == (target.kind == TokenKind::LocalVar),
            refs@ == matching_ranges(analysis, i as int, target.text@, is_var, include_declaration),
        decreases analysis.tokens@.len() - i,
    {
        let token = &analysis.tokens[i];
        if token_matches_symbol(token.kind, token.text.as_str(), target.text.as_str(), is_var) {
            let range = analysis.line_index.offset_to_range(token.span.start, token.span.end);
            let is_declaration = !include_declaration && is_definition_token(
                analysis.source.as_str(),
                token.span.start as usize,
                is_var,
            );
            if include_declaration || !is_declaration {
                refs.push(range);
            }
        }
        i = i + 1;
    }
    dedup_ranges(refs)
}

/// A range in a document.
#[derive(Debug)]
pub struct Location {
    /// Document.
    pub uri: String,
    /// Range.
    pub range: Range,
}

/// Content of a [`Location`].
pub struct LocationView {
    /// Document.
    pub uri: Seq<char>,
    /// Range.
    pub range: Range,
}

impl View for Location {
    type V = LocationView;

    open spec fn view(&self) -> LocationView {
        LocationView { uri: self.uri@, range: self.range }
    }
}

/// The contents of a sequence of locations.
pub open spec fn locations_view(v: Seq<Location>) -> Seq<LocationView> {
    v.map_values(|l: Location| l@)
}

/// Ranges placed in document `uri`.
pub open spec fn in_document(rs: Seq<Range>, uri: Seq<char>) -> Seq<LocationView> {
    rs.map_values(|r: Range| LocationView { uri, range: r })
}

/// Locations of the object references among the first `n` tokens of a
/// document (definitions included only when `with_decls`).
pub open spec fn document_refs(a: &DocumentAnalysis, uri: Seq<char>, n: int, target: Seq<char>, with_decls: bool) -> Seq<LocationView>
    decreases n,
{
    if n <= 0 {
        Seq::empty()
    } else {
        let prev = document_refs(a, uri, n - 1, target, with_decls);
        let t = a.tokens@[n - 1];
        if matches_symbol(t.kind, t.text@, target, false) && (with_decls || !is_definition_at(
            a.source@,
            t.span.start as int,
            false,
        )) {
            prev.push(LocationView { uri, range: range_at(a.line_index@, t.span.start as int, t.span.end as int) })
        } else {
            prev
        }
    }
}

/// Locations of the object references in the documents other than
/// `current`, document by document.
pub open spec fn other_documents_refs(
    docs: Seq<(String, &DocumentAnalysis)>,
    current: Seq<char>,
    target: Seq<char>,
    with_decls: bool,
) -> Seq<LocationView>
    decreases docs.len(),
{
    if docs.len() == 0 {
        Seq::empty()
    } else {
        let (uri, a) = docs.last();
        other_documents_refs(docs.drop_last(), current, target, with_decls) + if uri@ == current {
            Seq::empty()
        } else {
            document_refs(a, uri@, a.tokens@.len() as int, target, with_decls)
        }
    }
}

/// Locations of the stored definitions that are not variables and lie in
/// documents other than `current`.
pub open spec fn other_definitions(entries: Seq<crate::symbol_store::SymbolEntryView>, current: Seq<char>) -> Seq<LocationView>
    decreases entries.len(),
{
    if entries.len() == 0 {
        Seq::empty()
    } else {
        let e = entries.last();
        other_definitions(entries.drop_last(), current) + if e.kind == SymbolKind::Variable || e.uri == current {
            Seq::empty()
        } else {
            seq![LocationView { uri: e.uri, range: e.range }]
        }
    }
}

/// Cross-file references of the symbol under the cursor: a variable's
/// references stay in the current document; an object's are those of the
/// current document, then those of every other document, then (when
/// definitions are asked for) the stored definitions in other documents,
/// with runs of equal locations kept once.
pub open spec fn reference_locations_of(
    store: &SymbolStore,
    a: &DocumentAnalysis,
    current: Seq<char>,
    position: Position,
    with_decls: bool,
    docs: Seq<(String, &DocumentAnalysis)>,
) -> Seq<LocationView> {
    let o = position_offset(a.line_index@, encode_utf8(a.source@), position);
    match covering_token(a.tokens@, o) {
        Some(i) => {
            let target = a.tokens@[i];
            let own = in_document(reference_ranges(a, position, with_decls), current);
            if target.kind == TokenKind::LocalVar {
                own
            } else {
                dedup_adjacent(own + other_documents_refs(docs, current, target.text@, with_decls) + if with_decls {
                    other_definitions(group(store@, uppercase(target.text@)), current)
                } else {
                    Seq::empty()
                })
            }
        },
        None => Seq::empty(),
    }
}

fn ranges_to_locations(ranges: Vec<Range>, uri: &String) -> (r: Vec<Location>)
    ensures
        locations_view(r@) == in_document(ranges@, uri@),
{
    let mut r: Vec<Location> = Vec::new();
    let mut i: usize = 0;
    while i < ranges.len()
        invariant
            i <= ranges@.len(),
            r@.len() == i,
            forall|k: int| 0 <= k < i ==> (#[trigger] r@[k])@ == (LocationView { uri: uri@, range: ranges@[k] }),
        decreases ranges@.len() - i,
    {
        r.push(Location { uri: uri.clone(), range: ranges[i] });
        i = i + 1;
    }
    assert(locations_view(r@) =~= in_document(ranges@, uri@));
    r
}

fn dedup_locations(v: Vec<Location>) -> (r: Vec<Location>)
    ensures
        locations_view(r@) == dedup_adjacent(locations_view(v@)),
{
    let ghost lv = locations_view(v@);
    let mut r: Vec<Location> = Vec::new();
    let mut i: usize = 0;
    assert(lv.take(0) =~= Seq::<LocationView>::empty());
    assert(locations_view(r@) =~= dedup_adjacent(lv.take(0)));
    while i < v.len()
        invariant
            i <= v@.len(),
            lv == locations_view(v@),
            locations_view(r@) == dedup_adjacent(lv.take(i as int)),
        decreases v@.len() - i,
    {
        assert(lv.take(i + 1).drop_last() =~= lv.take(i as int));
        assert(lv.take(i + 1).last() == v@[i as int]@);
        let n = r.len();
        let same = n > 0 && crate::text::str_eq(r[n - 1].uri.as_str(), v[i].uri.as_str())
            && r[n - 1].range == v[i].range;
        proof {
            if n > 0 {
                assert(locations_view(r@).last() == r@[n - 1]@);
            }
        }
        if !same {
            let ghost before = r@;
            r.push(Location { uri: v[i].uri.clone(), range: v[i].range });
            assert(locations_view(r@) =~= locations_view(before).push(v@[i as int]@));
        }
        i = i + 1;
    }
    assert(lv.take(lv.len() as int) =~= lv);
    r
}

/// Cross-file references (see [`reference_locations_of`]); `docs` is a
/// snapshot of every known document and its analysis.
pub fn reference_locations(
    store: &SymbolStore,
    current_analysis: &DocumentAnalysis,
    current_uri: &String,
    position: Position,
    include_declaration: bool,
    docs: &Vec<(String, &DocumentAnalysis)>,
) -> (r: Vec<Location>)
    requires
        current_analysis.index_matches(),
        tokens_in_source(current_analysis),
        forall|d: int| 0 <= d < docs@.len() ==> tokens_in_source((#[trigger] docs@[d]).1),
    ensures
        tokens_sorted(current_analysis.tokens@) ==> locations_view(r@) == reference_locations_of(
            store,
            current_analysis,
            current_uri@,
            position,
            include_declaration,
            docs@,
        ),
{
    let (target, idx) = match current_analysis.find_token_at_position(position) {
        Some(t) => t,
        None => return Vec::new(),
    };
    proof {
        let o = position_offset(current_analysis.line_index@, encode_utf8(current_analysis.source@), position);
        if tokens_sorted(current_analysis.tokens@) {
            crate::analysis::lemma_covering_unique(current_analysis.tokens@, o, idx as int);
        }
    }
    let own = reference_ranges_with_analysis(current_analysis, position, include_declaration);
    let mut locations = ranges_to_locations(own, current_uri);
    if matches!(target.kind, TokenKind::LocalVar) {
        return locations;
    }
    let ghost head = locations_view(locations@);
    let mut d: usize = 0;
    assert(docs@.take(0) =~= Seq::<(String, &DocumentAnalysis)>::empty());
    assert(locations_view(locations@) =~= head + other_documents_refs(docs@.take(0), current_uri@, target.text@, include_declaration));
    while d < docs.len()
        invariant
            d <= docs@.len(),
            forall|j: int| 0 <= j < docs@.len() ==> tokens_in_source((#[trigger] docs@[j]).1),
            locations_view(locations@) == head + other_documents_refs(docs@.take(d as int), current_uri@, target.text@, include_declaration),
        decreases docs@.len() - d,
    {
        assert(docs@.take(d + 1).drop_last() =~= docs@.take(d as int));
        let (uri, analysis) = &docs[d];
        assert(tokens_in_source(docs@[d as int].1));
        if !crate::text::str_eq(uri.as_str(), current_uri.as_str()) {
            let ghost base = locations_view(locations@);
            let mut i: usize = 0;
            while i < analysis.tokens.len()
                invariant
                    i <= analysis.tokens@.len(),
                    tokens_in_source(*analysis),
                    locations_view(locations@) == base + document_refs(*analysis, uri@, i as int, target.text@, include_declaration),
                decreases analysis.tokens@.len() - i,
            {
                let token = &analysis.tokens[i];
                if token_matches_symbol(token.kind, token.text.as_str(), target.text.as_str(), false) {
                    let is_def = is_definition_token(analysis.source.as_str(), token.span.start as usize, false);
                    if !(is_def && !include_declaration) {
                        let ghost before = locations@;
                        locations.push(Location {
                            uri: uri.clone(),
                            range: analysis.line_index.offset_to_range(token.span.start, token.span.end),
                        });
                        assert(locations_view(locations@) =~= locations_view(before).push(locations@.last()@));
                    }
                }
                i = i + 1;
            }
        }
        assert(locations_view(locations@) =~= head + other_documents_refs(docs@.take(d + 1), current_uri@, target.text@, include_declaration));
        d = d + 1;
    }
    assert(docs@.take(docs@.len() as int) =~= docs@);
    if include_declaration {
        let entries = store.lookup(target.text.as_str());
        let ghost ev = entries_view(entries@);
        let ghost base = locations_view(locations@);
        let mut k: usize = 0;
        assert(ev.take(0) =~= Seq::<crate::symbol_store::SymbolEntryView>::empty());
        assert(locations_view(locations@) =~= base + other_definitions(ev.take(0), current_uri@));
        while k < entries.len()
            invariant
                k <= entries@.len(),
                ev == entries_view(entries@),
                locations_view(locations@) == base + other_definitions(ev.take(k as int), current_uri@),
            decreases entries@.len() - k,
        {
            assert(ev.take(k + 1).drop_last() =~= ev.take(k as int));
            assert(ev.take(k + 1).last() == entries@[k as int]@);
            let e = &entries[k];
            let is_variable = matches!(e.kind, SymbolKind::Variable);
            if !is_variable && !crate::text::str_eq(e.uri.as_str(), current_uri.as_str()) {
                let ghost before = locations@;
                locations.push(Location { uri: e.uri.clone(), range: e.range });
                assert(locations_view(locations@) =~= locations_view(before).push(locations@.last()@));
            }
            assert(locations_view(locations@) =~= base + other_definitions(ev.take(k + 1), current_uri@));
            k = k + 1;
        }
        assert(ev.take(ev.len() as int) =~= ev);
    }
    dedup_locations(locations)
}

} // verus!
