//! Cross-file symbol index: every definition of every known document, found
//! by case-insensitive name.
//!
//! Each document's contribution is tagged with where it came from (an open
//! editor buffer or background indexing). Replacing or removing the
//! contribution of one document never touches the entries of another, so a
//! background copy of one file cannot evict the live buffer of another.

use crate::analysis::DocumentAnalysis;
use crate::position::Range;
use crate::symbol_table::{
    key_index, keys_distinct, uppercase, CaseInsensitiveKey, IndexSymbol, ProcedureSymbol,
    SymbolMap, SymbolTable, TableSymbol, TriggerSymbol, VariableSymbol, ViewSymbol,
};
use vstd::prelude::*;
use vstd::string::*;

verus! {

/// Where an entry came from.
#[derive(Debug, Clone, Copy, PartialEq, Eq, Hash, Structural)]
pub enum DocumentSource {
    /// The document is open in an editor.
    Open,
    /// The document is the live, just-edited buffer.
    Live,
    /// The entry was produced by background indexing of a file on disk.
    Background,
}

impl DocumentSource {
    /// Whether this source is a live editor buffer (`Open` or `Live`).
    pub fn is_live(self) -> (r: bool)
        ensures
            r == (self == DocumentSource::Open || self == DocumentSource::Live),
    {
        match self {
            DocumentSource::Open | DocumentSource::Live => true,
            DocumentSource::Background => false,
        }
    }
}

/// Symbol kind reported for an entry, with the protocol's numeric codes.
#[derive(Debug, Clone, Copy, PartialEq, Eq, Structural)]
pub enum SymbolKind {
    /// Table (code 5).
    Class,
    /// Procedure (code 12).
    Function,
    /// View (code 11).
    Interface,
    /// Index (code 7).
    Property,
    /// Trigger (code 24).
    Event,
    /// Variable (code 13).
    Variable,
    /// Statement outline entry (code 3).
    Namespace,
}

impl SymbolKind {
    /// The protocol's numeric code of this kind.
    pub fn code(self) -> (c: u32)
        ensures
            c == (match self {
                SymbolKind::Class => 5u32,
                SymbolKind::Function => 12u32,
                SymbolKind::Interface => 11u32,
                SymbolKind::Property => 7u32,
                SymbolKind::Event => 24u32,
                SymbolKind::Variable => 13u32,
                SymbolKind::Namespace => 3u32,
            }),
    {
        match self {
            SymbolKind::Class => 5,
            SymbolKind::Function => 12,
            SymbolKind::Interface => 11,
            SymbolKind::Property => 7,
            SymbolKind::Event => 24,
            SymbolKind::Variable => 13,
            SymbolKind::Namespace => 3,
        }
    }
}

/// One definition of a named symbol in one document.
#[derive(Debug)]
pub struct SymbolEntry {
    /// Symbol name as written.
    pub name: String,
    /// Document holding the definition.
    pub uri: String,
    /// Range of the symbol name.
    pub range: Range,
    /// Symbol kind.
    pub kind: SymbolKind,
    /// Owning table, for indexes and triggers.
    pub container_name: Option<String>,
    /// Where the entry came from.
    pub source: DocumentSource,
}

/// The content of a [`SymbolEntry`].
pub struct SymbolEntryView {
    /// Symbol name as written.
    pub name: Seq<char>,
    /// Document holding the definition.
    pub uri: Seq<char>,
    /// Range of the symbol name.
    pub range: Range,
    /// Symbol kind.
    pub kind: SymbolKind,
    /// Owning table, for indexes and triggers.
    pub container_name: Option<Seq<char>>,
    /// Where the entry came from.
    pub source: DocumentSource,
}

impl View for SymbolEntry {
    type V = SymbolEntryView;

    open spec fn view(&self) -> SymbolEntryView {
        SymbolEntryView {
            name: self.name@,
            uri: self.uri@,
            range: self.range,
            kind: self.kind,
            container_name: match self.container_name {
                Some(c) => Some(c@),
                None => None,
            },
            source: self.source,
        }
    }
}

impl Clone for SymbolEntry {
    fn clone(&self) -> (c: Self)
        ensures
            c@ == self@,
    {
        SymbolEntry {
            name: self.name.clone(),
            uri: self.uri.clone(),
            range: self.range,
            kind: self.kind,
            container_name: match &self.container_name {
                Some(c) => Some(c.clone()),
                None => None,
            },
            source: self.source,
        }
    }
}

/// Category of a definition in a symbol table.
#[derive(Debug, Clone, Copy, PartialEq, Eq, Structural)]
pub enum SymbolCategory {
    /// Table.
    Table,
    /// Procedure.
    Procedure,
    /// View.
    View,
    /// Index.
    Index,
    /// Trigger.
    Trigger,
    /// Variable.
    Variable,
}

/// Symbol kind of a category.
pub open spec fn category_kind(c: SymbolCategory) -> SymbolKind {
    match c {
        SymbolCategory::Table => SymbolKind::Class,
        SymbolCategory::Procedure => SymbolKind::Function,
        SymbolCategory::View => SymbolKind::Interface,
        SymbolCategory::Index => SymbolKind::Property,
        SymbolCategory::Trigger => SymbolKind::Event,
        SymbolCategory::Variable => SymbolKind::Variable,
    }
}

fn kind_of(c: SymbolCategory) -> (k: SymbolKind)
    ensures
        k == category_kind(c),
{
    match c {
        SymbolCategory::Table => SymbolKind::Class,
        SymbolCategory::Procedure => SymbolKind::Function,
        SymbolCategory::View => SymbolKind::Interface,
        SymbolCategory::Index => SymbolKind::Property,
        SymbolCategory::Trigger => SymbolKind::Event,
        SymbolCategory::Variable => SymbolKind::Variable,
    }
}

/// One definition of a symbol table, flattened.
pub struct FlatEntry {
    /// Symbol name as written.
    pub name: String,
    /// Range of the name.
    pub range: Range,
    /// Owning table (empty unless an index or trigger).
    pub table_name: String,
    /// Category.
    pub category: SymbolCategory,
}

/// Content of a [`FlatEntry`].
pub struct FlatView {
    /// Symbol name as written.
    pub name: Seq<char>,
    /// Range of the name.
    pub range: Range,
    /// Owning table (empty unless an index or trigger).
    pub table_name: Seq<char>,
    /// Category.
    pub category: SymbolCategory,
}

impl View for FlatEntry {
    type V = FlatView;

    open spec fn view(&self) -> FlatView {
        FlatView {
            name: self.name@,
            range: self.range,
            table_name: self.table_name@,
            category: self.category,
        }
    }
}

/// A definition kept in a symbol table, as the store flattens it.
pub trait Definition {
    /// The flattened content of this definition.
    spec fn definition(&self) -> FlatView;

    /// Flatten this definition.
    fn flatten(&self) -> (f: FlatEntry)
        ensures
            f@ == self.definition(),
    ;
}

impl Definition for TableSymbol {
    open spec fn definition(&self) -> FlatView {
        FlatView { name: self.name@, range: self.range, table_name: Seq::empty(), category: SymbolCategory::Table }
    }

    fn flatten(&self) -> (f: FlatEntry) {
        FlatEntry { name: self.name.clone(), range: self.range, table_name: String::new(), category: SymbolCategory::Table }
    }
}

impl Definition for ProcedureSymbol {
    open spec fn definition(&self) -> FlatView {
        FlatView { name: self.name@, range: self.range, table_name: Seq::empty(), category: SymbolCategory::Procedure }
    }

    fn flatten(&self) -> (f: FlatEntry) {
        FlatEntry { name: self.name.clone(), range: self.range, table_name: String::new(), category: SymbolCategory::Procedure }
    }
}

impl Definition for ViewSymbol {
    open spec fn definition(&self) -> FlatView {
        FlatView { name: self.name@, range: self.range, table_name: Seq::empty(), category: SymbolCategory::View }
    }

    fn flatten(&self) -> (f: FlatEntry) {
        FlatEntry { name: self.name.clone(), range: self.range, table_name: String::new(), category: SymbolCategory::View }
    }
}

impl Definition for IndexSymbol {
    open spec fn definition(&self) -> FlatView {
        FlatView { name: self.name@, range: self.range, table_name: self.table_name@, category: SymbolCategory::Index }
    }

    fn flatten(&self) -> (f: FlatEntry) {
        FlatEntry { name: self.name.clone(), range: self.range, table_name: self.table_name.clone(), category: SymbolCategory::Index }
    }
}

impl Definition for TriggerSymbol {
    open spec fn definition(&self) -> FlatView {
        FlatView { name: self.name@, range: self.range, table_name: self.table_name@, category: SymbolCategory::Trigger }
    }

    fn flatten(&self) -> (f: FlatEntry) {
        FlatEntry { name: self.name.clone(), range: self.range, table_name: self.table_name.clone(), category: SymbolCategory::Trigger }
    }
}

impl Definition for VariableSymbol {
    open spec fn definition(&self) -> FlatView {
        FlatView { name: self.name@, range: self.range, table_name: Seq::empty(), category: SymbolCategory::Variable }
    }

    fn flatten(&self) -> (f: FlatEntry) {
        FlatEntry { name: self.name.clone(), range: self.range, table_name: String::new(), category: SymbolCategory::Variable }
    }
}

/// The flattened definitions of one map, in map order.
pub open spec fn defs<T: Definition>(s: Seq<(Seq<char>, T)>) -> Seq<FlatView> {
    s.map_values(|p: (Seq<char>, T)| p.1.definition())
}

/// The definitions of a symbol table in order: tables, procedures, views,
/// indexes, triggers, variables; each kind in the order of its map.
pub open spec fn flat_view(t: &SymbolTable) -> Seq<FlatView> {
    defs(t.tables@) + defs(t.procedures@) + defs(t.views@) + defs(t.indexes@) + defs(t.triggers@)
        + defs(t.variables@)
}

/// The contents of a sequence of flattened definitions.
pub open spec fn flats_view(s: Seq<FlatEntry>) -> Seq<FlatView> {
    s.map_values(|f: FlatEntry| f@)
}

fn append_defs<T: Definition>(out: &mut Vec<FlatEntry>, m: &SymbolMap<T>)
    ensures
        flats_view(final(out)@) == flats_view(old(out)@) + defs(m@),
{
    let mut i: usize = 0;
    let ghost start = flats_view(out@);
    let ghost n0 = out@.len();
    while i < m.len()
        invariant
            i <= m@.len(),
            n0 == start.len(),
            out@.len() == n0 + i,
            forall|k: int| 0 <= k < n0 ==> out@[k]@ == start[k],
            forall|k: int| 0 <= k < i ==> out@[n0 + k]@ == m@[k].1.definition(),
        decreases m@.len() - i,
    {
        let (_, d) = m.entry_at(i);
        let f = d.flatten();
        out.push(f);
        i = i + 1;
    }
    assert(flats_view(out@) =~= start + defs(m@));
}

/// Flatten a symbol table: tables, procedures, views, indexes, triggers,
/// then variables.
fn flatten_table(table: &SymbolTable) -> (r: Vec<FlatEntry>)
    ensures
        flats_view(r@) == flat_view(table),
{
    let mut out: Vec<FlatEntry> = Vec::new();
    assert(flats_view(out@) =~= Seq::<FlatView>::empty());
    append_defs(&mut out, &table.tables);
    append_defs(&mut out, &table.procedures);
    append_defs(&mut out, &table.views);
    append_defs(&mut out, &table.indexes);
    append_defs(&mut out, &table.triggers);
    append_defs(&mut out, &table.variables);
    assert(flats_view(out@) =~= flat_view(table));
    out
}

/// The store entry of a flattened definition of document `uri`.
pub open spec fn entry_of(f: FlatView, uri: Seq<char>, source: DocumentSource) -> SymbolEntryView {
    SymbolEntryView {
        name: f.name,
        uri,
        range: f.range,
        kind: category_kind(f.category),
        container_name: match f.category {
            SymbolCategory::Index | SymbolCategory::Trigger => Some(f.table_name),
            _ => None,
        },
        source,
    }
}

/// The store entries of a sequence of flattened definitions.
pub open spec fn entries_of(fs: Seq<FlatView>, uri: Seq<char>, source: DocumentSource) -> Seq<SymbolEntryView>
    decreases fs.len(),
{
    if fs.len() == 0 {
        Seq::empty()
    } else {
        entries_of(fs.drop_last(), uri, source).push(entry_of(fs.last(), uri, source))
    }
}

/// The entries of `s` that do not belong to document `uri`, in order.
pub open spec fn drop_uri(s: Seq<SymbolEntryView>, uri: Seq<char>) -> Seq<SymbolEntryView>
    decreases s.len(),
{
    if s.len() == 0 {
        Seq::empty()
    } else if s.last().uri == uri {
        drop_uri(s.drop_last(), uri)
    } else {
        drop_uri(s.drop_last(), uri).push(s.last())
    }
}

/// The entries of `s` whose name has key `key`, in order.
pub open spec fn with_key(s: Seq<SymbolEntryView>, key: Seq<char>) -> Seq<SymbolEntryView>
    decreases s.len(),
{
    if s.len() == 0 {
        Seq::empty()
    } else if uppercase(s.last().name) == key {
        with_key(s.drop_last(), key).push(s.last())
    } else {
        with_key(s.drop_last(), key)
    }
}

/// The entries stored under `key`.
pub open spec fn group(gs: Seq<(Seq<char>, Seq<SymbolEntryView>)>, key: Seq<char>) -> Seq<SymbolEntryView> {
    match key_index(gs, key) {
        Some(i) => gs[i].1,
        None => Seq::empty(),
    }
}

/// Every group holds at least one entry.
pub open spec fn groups_nonempty(gs: Seq<(Seq<char>, Seq<SymbolEntryView>)>) -> bool {
    forall|i: int| 0 <= i < gs.len() ==> gs[i].1.len() > 0
}

/// Every entry stored under a name has a name with that key.
pub open spec fn groups_keyed(gs: Seq<(Seq<char>, Seq<SymbolEntryView>)>) -> bool {
    forall|k: Seq<char>, j: int| 0 <= j < group(gs, k).len() ==> uppercase(#[trigger] group(gs, k)[j].name) == k
}

/// The names listed with at least one entry.
pub open spec fn names(gs: Seq<(Seq<char>, Seq<SymbolEntryView>)>) -> Set<Seq<char>> {
    Set::new(|k: Seq<char>| group(gs, k).len() > 0)
}

/// The names as listed, in order.
pub open spec fn listed_names(gs: Seq<(Seq<char>, Seq<SymbolEntryView>)>) -> Seq<Seq<char>> {
    gs.map_values(|g: (Seq<char>, Seq<SymbolEntryView>)| g.0)
}

/// Cross-file symbol index: from case-insensitive name to every definition
/// of that name across known documents, each name's definitions in the
/// order they were added.
pub struct SymbolStore {
    by_name: Vec<(CaseInsensitiveKey, Vec<SymbolEntry>)>,
}

/// The contents of a sequence of entries.
pub open spec fn entries_view(s: Seq<SymbolEntry>) -> Seq<SymbolEntryView> {
    s.map_values(|e: SymbolEntry| e@)
}

/// The content of one group.
pub open spec fn group_view(g: (CaseInsensitiveKey, Vec<SymbolEntry>)) -> (Seq<char>, Seq<SymbolEntryView>) {
    (g.0@, entries_view(g.1@))
}

/// The contents of a sequence of groups.
pub open spec fn groups_view(v: Seq<(CaseInsensitiveKey, Vec<SymbolEntry>)>) -> Seq<(Seq<char>, Seq<SymbolEntryView>)> {
    v.map_values(|g: (CaseInsensitiveKey, Vec<SymbolEntry>)| group_view(g))
}

impl View for SymbolStore {
    type V = Seq<(Seq<char>, Seq<SymbolEntryView>)>;

    closed spec fn view(&self) -> Seq<(Seq<char>, Seq<SymbolEntryView>)> {
        groups_view(self.by_name@)
    }
}

/// Group contents after adding `e` under `key`.
pub open spec fn add_entry(
    gs: Seq<(Seq<char>, Seq<SymbolEntryView>)>,
    key: Seq<char>,
    e: SymbolEntryView,
) -> Seq<(Seq<char>, Seq<SymbolEntryView>)> {
    match key_index(gs, key) {
        Some(i) => gs.update(i, (key, gs[i].1.push(e))),
        None => gs.push((key, seq![e])),
    }
}

proof fn lemma_key_index<T>(s: Seq<(Seq<char>, T)>, key: Seq<char>)
    requires
        keys_distinct(s),
    ensures
        key_index(s, key) matches Some(i) ==> 0 <= i < s.len() && s[i].0 == key,
        key_index(s, key) is None ==> forall|j: int| 0 <= j < s.len() ==> s[j].0 != key,
        forall|j: int| 0 <= j < s.len() && s[j].0 == key ==> key_index(s, key) == Some(j),
{
}

proof fn lemma_add_entry(
    gs: Seq<(Seq<char>, Seq<SymbolEntryView>)>,
    key: Seq<char>,
    e: SymbolEntryView,
)
    requires
        keys_distinct(gs),
        groups_nonempty(gs),
    ensures
        keys_distinct(add_entry(gs, key, e)),
        groups_nonempty(add_entry(gs, key, e)),
        forall|k: Seq<char>| #[trigger] group(add_entry(gs, key, e), k) == (if k == key {
            group(gs, k).push(e)
        } else {
            group(gs, k)
        }),
{
    let ng = add_entry(gs, key, e);
    lemma_key_index(gs, key);
    assert(keys_distinct(ng));
    assert forall|k: Seq<char>| #[trigger] group(ng, k) == (if k == key {
        group(gs, k).push(e)
    } else {
        group(gs, k)
    }) by {
        lemma_key_index(gs, k);
        lemma_key_index(ng, k);
        if k != key {
            if let Some(j) = key_index(gs, k) {
                assert(ng[j].0 == k);
            }
        } else {
            if let Some(j) = key_index(gs, key) {
                assert(ng[j].0 == key);
            } else {
                assert(ng[gs.len() as int].0 == key);
            }
        }
    }
}

proof fn lemma_push_group(
    kv: Seq<(Seq<char>, Seq<SymbolEntryView>)>,
    key: Seq<char>,
    es: Seq<SymbolEntryView>,
)
    requires
        keys_distinct(kv),
        groups_nonempty(kv),
        group(kv, key).len() == 0,
        es.len() > 0,
    ensures
        keys_distinct(kv.push((key, es))),
        groups_nonempty(kv.push((key, es))),
        forall|k: Seq<char>| #[trigger] group(kv.push((key, es)), k) == (if k == key {
            es
        } else {
            group(kv, k)
        }),
{
    let nk = kv.push((key, es));
    lemma_key_index(kv, key);
    if let Some(j) = key_index(kv, key) {
        assert(kv[j].1.len() > 0);
    }
    assert forall|k: Seq<char>| #[trigger] group(nk, k) == (if k == key { es } else { group(kv, k) }) by {
        lemma_key_index(kv, k);
        lemma_key_index(nk, k);
        if let Some(j) = key_index(kv, k) {
            assert(nk[j] == kv[j]);
        }
        if k == key {
            assert(nk[kv.len() as int].0 == k);
        }
    }
}

/// `drop_uri` distributes over appending one entry.
proof fn lemma_drop_uri_push(s: Seq<SymbolEntryView>, e: SymbolEntryView, uri: Seq<char>)
    ensures
        drop_uri(s.push(e), uri) == (if e.uri == uri {
            drop_uri(s, uri)
        } else {
            drop_uri(s, uri).push(e)
        }),
{
    assert(s.push(e).drop_last() =~= s);
}

/// In well-formed groups, the listed names are exactly the names with at
/// least one entry, each listed once; so there are as many groups as such
/// names.
pub proof fn law_listed_names(gs: Seq<(Seq<char>, Seq<SymbolEntryView>)>)
    requires
        keys_distinct(gs),
        groups_nonempty(gs),
    ensures
        listed_names(gs).no_duplicates(),
        listed_names(gs).to_set() == names(gs),
        gs.len() == names(gs).len(),
        forall|i: int| 0 <= i < gs.len() ==> #[trigger] group(gs, gs[i].0) == gs[i].1,
{
    let ks = listed_names(gs);
    assert forall|i: int| 0 <= i < gs.len() implies #[trigger] group(gs, gs[i].0) == gs[i].1 by {
        lemma_key_index(gs, gs[i].0);
    }
    assert forall|i: int, j: int| 0 <= i < ks.len() && 0 <= j < ks.len() && i != j implies ks[i] != ks[j] by {
        if i < j {
            assert(gs[i].0 != gs[j].0);
        } else {
            assert(gs[j].0 != gs[i].0);
        }
    }
    assert(ks.no_duplicates());
    assert forall|k: Seq<char>| ks.to_set().contains(k) <==> names(gs).contains(k) by {
        lemma_key_index(gs, k);
        if ks.to_set().contains(k) {
            let i = choose|i: int| 0 <= i < ks.len() && ks[i] == k;
            assert(group(gs, k) == gs[i].1);
        }
        if names(gs).contains(k) {
            let i = key_index(gs, k)->0;
            assert(ks[i] == k);
        }
    }
    assert(ks.to_set() =~= names(gs));
    ks.unique_seq_to_set();
}

/// Two well-formed stores with the same entries under every name list the
/// same names, as many of them: an upsert repeated, or a close of a document
/// that contributes nothing, leaves `len`, `is_empty` and the names of `iter`
/// as they were.
pub proof fn law_same_groups_same_names(
    a: Seq<(Seq<char>, Seq<SymbolEntryView>)>,
    b: Seq<(Seq<char>, Seq<SymbolEntryView>)>,
)
    requires
        keys_distinct(a),
        groups_nonempty(a),
        keys_distinct(b),
        groups_nonempty(b),
        forall|k: Seq<char>| #[trigger] group(a, k) == group(b, k),
    ensures
        names(a) == names(b),
        listed_names(a).to_set() == listed_names(b).to_set(),
        a.len() == b.len(),
{
    assert(names(a) =~= names(b));
    law_listed_names(a);
    law_listed_names(b);
}

impl SymbolStore {
    #[verifier::type_invariant]
    spec fn inv(self) -> bool {
        self.wf()
    }

    /// Each name is listed once, with at least one entry, and every entry
    /// under a name has a name with that key.
    pub open spec fn wf(&self) -> bool {
        &&& keys_distinct(self@)
        &&& groups_nonempty(self@)
        &&& groups_keyed(self@)
    }

    /// An empty store.
    pub fn new() -> (s: SymbolStore)
        ensures
            s@.len() == 0,
            s.wf(),
    {
        let s = SymbolStore { by_name: Vec::new() };
        assert(s@ =~= Seq::<(Seq<char>, Seq<SymbolEntryView>)>::empty());
        s
    }

    /// The entries of `v` that do not belong to document `uri`.
    fn without_uri(v: &Vec<SymbolEntry>, uri: &str) -> (r: Vec<SymbolEntry>)
        ensures
            entries_view(r@) == drop_uri(entries_view(v@), uri@),
    {
        let ghost vs = entries_view(v@);
        let mut r: Vec<SymbolEntry> = Vec::new();
        let mut i: usize = 0;
        assert(vs.subrange(0, 0) =~= Seq::<SymbolEntryView>::empty());
        while i < v.len()
            invariant
                i <= v@.len(),
                vs == entries_view(v@),
                entries_view(r@) == drop_uri(vs.subrange(0, i as int), uri@),
            decreases v@.len() - i,
        {
            assert(vs.subrange(0, i + 1) =~= vs.subrange(0, i as int).push(vs[i as int]));
            proof {
                lemma_drop_uri_push(vs.subrange(0, i as int), vs[i as int], uri@);
            }
            if !crate::text::str_eq(v[i].uri.as_str(), uri) {
                r.push(v[i].clone());
                assert(entries_view(r@) =~= drop_uri(vs.subrange(0, i as int), uri@).push(vs[i as int]));
            }
            i = i + 1;
        }
        assert(vs.subrange(0, v@.len() as int) =~= vs);
        r
    }

    /// Remove every entry of document `uri`; the entries of other documents
    /// are kept in their order, and a name left without entries disappears.
    pub fn close(&mut self, uri: &str)
        ensures
            forall|k: Seq<char>| #[trigger] group(final(self)@, k) == drop_uri(group(old(self)@, k), uri@),
            final(self).wf(),
            final(self)@.len() <= old(self)@.len(),
    {
        proof {
            use_type_invariant(&*self);
        }
        let ghost old_groups = self@;
        let mut kept: Vec<(CaseInsensitiveKey, Vec<SymbolEntry>)> = Vec::new();
        let mut i: usize = 0;
        while i < self.by_name.len()
            invariant
                i <= self.by_name@.len(),
                kept@.len() <= i,
                self@ == old_groups,
                keys_distinct(old_groups),
                groups_nonempty(old_groups),
                keys_distinct(groups_view(kept@)),
                groups_nonempty(groups_view(kept@)),
                forall|k: Seq<char>| #[trigger] group(groups_view(kept@), k)
                    == drop_uri(group(old_groups.subrange(0, i as int), k), uri@),
            decreases self.by_name@.len() - i,
        {
            let ghost kv = groups_view(kept@);
            let ghost pre = old_groups.subrange(0, i as int);
            let ghost next = old_groups.subrange(0, i + 1);
            let ghost gi = old_groups[i as int];
            let rest = Self::without_uri(&self.by_name[i].1, uri);
            proof {
                assert(next =~= pre.push(gi));
                assert(group_view(self.by_name@[i as int]) == gi);
                lemma_key_index(old_groups, gi.0);
                assert forall|k: Seq<char>| #[trigger] group(next, k) == (if k == gi.0 { gi.1 } else { group(pre, k) }) by {
                    lemma_key_index(next, k);
                    lemma_key_index(pre, k);
                    if let Some(j) = key_index(pre, k) {
                        assert(next[j] == pre[j]);
                    }
                    if k == gi.0 {
                        assert(next[i as int].0 == k);
                        if let Some(j) = key_index(pre, k) {
                            assert(old_groups[j].0 == old_groups[i as int].0);
                        }
                    }
                }
                // The key of this group does not occur among the kept groups.
                assert(group(pre, gi.0) == Seq::<SymbolEntryView>::empty()) by {
                    lemma_key_index(pre, gi.0);
                    if let Some(j) = key_index(pre, gi.0) {
                        assert(old_groups[j].0 == old_groups[i as int].0);
                    }
                }
                assert(drop_uri(Seq::<SymbolEntryView>::empty(), uri@) =~= Seq::<SymbolEntryView>::empty());
                lemma_key_index(kv, gi.0);
                if let Some(j) = key_index(kv, gi.0) {
                    assert(kv[j].1.len() > 0);
                    assert(group(kv, gi.0) == kv[j].1);
                }
            }
            if rest.len() > 0 {
                let key = self.by_name[i].0.clone();
                kept.push((key, rest));
                proof {
                    assert(groups_view(kept@) =~= kv.push((gi.0, drop_uri(gi.1, uri@))));
                    lemma_push_group(kv, gi.0, drop_uri(gi.1, uri@));
                }
            }
            i = i + 1;
        }
        proof {
            assert(old_groups.subrange(0, old_groups.len() as int) =~= old_groups);
            let kv = groups_view(kept@);
            assert forall|k: Seq<char>, j: int| 0 <= j < group(kv, k).len() implies uppercase(
                #[trigger] group(kv, k)[j].name,
            ) == k by {
                lemma_drop_uri_in(group(old_groups, k), uri@, j);
            }
        }
        self.by_name = kept;
    }

    fn position(&self, key: &CaseInsensitiveKey) -> (r: Option<usize>)
        ensures
            match r {
                Some(i) => key_index(self@, key@) == Some(i as int),
                None => key_index(self@, key@) is None,
            },
    {
        proof {
            use_type_invariant(self);
        }
        let mut i: usize = 0;
        while i < self.by_name.len()
            invariant
                i <= self@.len(),
                self@.len() == self.by_name@.len(),
                keys_distinct(self@),
                forall|k: int| 0 <= k < i ==> self@[k].0 != key@,
            decreases self@.len() - i,
        {
            if self.by_name[i].0.same(key) {
                proof {
                    assert(self@[i as int] == group_view(self.by_name@[i as int]));
                    lemma_key_index(self@, key@);
                }
                return Some(i);
            }
            i = i + 1;
        }
        None
    }

    fn add(&mut self, key: CaseInsensitiveKey, entry: SymbolEntry)
        requires
            key@ == uppercase(entry@.name),
        ensures
            final(self)@ == add_entry(old(self)@, key@, entry@),
    {
        proof {
            use_type_invariant(&*self);
            lemma_add_entry(self@, key@, entry@);
            let ng = add_entry(self@, key@, entry@);
            assert forall|kk: Seq<char>, j: int| 0 <= j < group(ng, kk).len() implies uppercase(
                #[trigger] group(ng, kk)[j].name,
            ) == kk by {
                if kk == key@ && j == group(self@, kk).len() {
                } else {
                    assert(group(ng, kk)[j] == group(self@, kk)[j]);
                }
            }
        }
        let ghost k = key@;
        let ghost e = entry@;
        let pos = self.position(&key);
        let mut groups: Vec<(CaseInsensitiveKey, Vec<SymbolEntry>)> = Vec::new();
        std::mem::swap(&mut groups, &mut self.by_name);
        let ghost g0 = groups@;
        assert(groups_view(g0) == old(self)@);
        match pos {
            Some(i) => {
                let (_, mut es) = groups.remove(i);
                let ghost es0 = entries_view(es@);
                assert(es0 == old(self)@[i as int].1);
                es.push(entry);
                assert(entries_view(es@) =~= es0.push(e));
                groups.insert(i, (key, es));
                assert(groups@ =~= g0.update(i as int, groups@[i as int]));
                assert(groups_view(groups@) =~= add_entry(old(self)@, k, e));
            },
            None => {
                let mut es: Vec<SymbolEntry> = Vec::new();
                es.push(entry);
                assert(entries_view(es@) =~= seq![e]);
                groups.push((key, es));
                assert(groups_view(groups@) =~= add_entry(old(self)@, k, e));
            },
        }
        self.by_name = groups;
    }

    /// Replace all entries of document `uri` by the definitions of
    /// `analysis`, tagged with `source`: the entries of other documents stay
    /// as they were, and under each name the new definitions follow them in
    /// the order tables, procedures, views, indexes, triggers, variables.
    #[verifier::rlimit(50)]
    pub fn upsert(&mut self, uri: &str, analysis: &DocumentAnalysis, source: DocumentSource)
        ensures
            forall|k: Seq<char>| #[trigger] group(final(self)@, k) == drop_uri(group(old(self)@, k), uri@)
                + with_key(entries_of(flat_view(&analysis.symbol_table), uri@, source), k),
            final(self).wf(),
    {
        self.close(uri);
        let ghost closed = self@;
        let flat = flatten_table(&analysis.symbol_table);
        let ghost fv = flat_view(&analysis.symbol_table);
        let mut i: usize = 0;
        assert forall|k: Seq<char>| #[trigger] group(self@, k) == group(closed, k)
            + with_key(entries_of(fv.subrange(0, 0), uri@, source), k) by {
            assert(fv.subrange(0, 0) =~= Seq::<FlatView>::empty());
            assert(group(closed, k) + Seq::<SymbolEntryView>::empty() =~= group(closed, k));
        }
        while i < flat.len()
            invariant
                i <= flat@.len(),
                flats_view(flat@) == fv,
                forall|k: Seq<char>| #[trigger] group(closed, k) == drop_uri(group(old(self)@, k), uri@),
                forall|k: Seq<char>| #[trigger] group(self@, k) == group(closed, k)
                    + with_key(entries_of(fv.subrange(0, i as int), uri@, source), k),
            decreases flat@.len() - i,
        {
            let f = &flat[i];
            let ghost fi = fv[i as int];
            assert(f@ == fi);
            let container_name = match f.category {
                SymbolCategory::Index | SymbolCategory::Trigger => Some(f.table_name.clone()),
                _ => None,
            };
            let entry = SymbolEntry {
                name: f.name.clone(),
                uri: String::from_str(uri),
                range: f.range,
                kind: kind_of(f.category),
                container_name,
                source,
            };
            let ghost e = entry@;
            assert(e == entry_of(fi, uri@, source));
            let key = CaseInsensitiveKey::new(f.name.as_str());
            let ghost before = self@;
            proof {
                use_type_invariant(&*self);
                lemma_add_entry(before, key@, e);
            }
            self.add(key, entry);
            proof {
                let pre = entries_of(fv.subrange(0, i as int), uri@, source);
                assert(fv.subrange(0, i + 1).drop_last() =~= fv.subrange(0, i as int));
                assert(entries_of(fv.subrange(0, i + 1), uri@, source) == pre.push(e));
                assert(pre.push(e).drop_last() =~= pre);
                assert forall|k: Seq<char>| #[trigger] group(self@, k) == group(closed, k)
                    + with_key(entries_of(fv.subrange(0, i + 1), uri@, source), k) by {
                    assert(group(self@, k) == (if k == uppercase(fi.name) {
                        group(before, k).push(e)
                    } else {
                        group(before, k)
                    }));
                    if k == uppercase(fi.name) {
                        assert(group(closed, k) + with_key(pre, k).push(e) =~= (group(closed, k)
                            + with_key(pre, k)).push(e));
                    }
                }
            }
            i = i + 1;
        }
        assert(fv.subrange(0, flat@.len() as int) =~= fv);
        proof {
            use_type_invariant(&*self);
        }
    }

    /// Every entry under the name's key, in the order they were added.
    pub fn lookup(&self, name: &str) -> (r: &[SymbolEntry])
        ensures
            entries_view(r@) == group(self@, uppercase(name@)),
            forall|j: int| 0 <= j < r@.len() ==> uppercase((#[trigger] r@[j])@.name) == uppercase(name@),
    {
        proof {
            use_type_invariant(self);
            assert forall|j: int| 0 <= j < group(self@, uppercase(name@)).len() implies uppercase(
                #[trigger] group(self@, uppercase(name@))[j].name,
            ) == uppercase(name@) by {}
        }
        let key = CaseInsensitiveKey::new(name);
        let r = match self.position(&key) {
            Some(i) => self.by_name[i].1.as_slice(),
            None => {
                let empty: &[SymbolEntry] = &[];
                assert(entries_view(empty@) =~= Seq::<SymbolEntryView>::empty());
                empty
            },
        };
        proof {
            let g = group(self@, uppercase(name@));
            assert forall|j: int| 0 <= j < r@.len() implies uppercase((#[trigger] r@[j])@.name) == uppercase(name@) by {
                assert(entries_view(r@)[j] == r@[j]@);
                assert(g[j] == entries_view(r@)[j]);
            }
        }
        r
    }

    /// Every name with its entries, one pair per distinct name.
    pub fn iter(&self) -> (r: Vec<(&CaseInsensitiveKey, &[SymbolEntry])>)
        ensures
            self.wf(),
            r@.len() == self@.len(),
            forall|i: int| 0 <= i < r@.len() ==> r@[i].0@ == self@[i].0 && entries_view(r@[i].1@) == self@[i].1,
    {
        proof {
            use_type_invariant(self);
        }
        let mut r: Vec<(&CaseInsensitiveKey, &[SymbolEntry])> = Vec::new();
        let mut i: usize = 0;
        while i < self.by_name.len()
            invariant
                i <= self@.len(),
                self@.len() == self.by_name@.len(),
                r@.len() == i,
                forall|k: int| 0 <= k < i ==> r@[k].0@ == self@[k].0 && entries_view(r@[k].1@) == self@[k].1,
            decreases self@.len() - i,
        {
            let g = &self.by_name[i];
            r.push((&g.0, g.1.as_slice()));
            i = i + 1;
        }
        r
    }

    /// Number of distinct names.
    pub fn len(&self) -> (n: usize)
        ensures
            n == self@.len(),
            n == names(self@).len(),
    {
        proof {
            use_type_invariant(self);
            law_listed_names(self@);
        }
        self.by_name.len()
    }

    /// Whether the store holds no name.
    pub fn is_empty(&self) -> (r: bool)
        ensures
            r == (self@.len() == 0),
            r == (names(self@).len() == 0),
    {
        proof {
            use_type_invariant(self);
            law_listed_names(self@);
        }
        self.by_name.len() == 0
    }
}

/// The entries of `s` that belong to document `uri`, in order.
pub open spec fn only_uri(s: Seq<SymbolEntryView>, uri: Seq<char>) -> Seq<SymbolEntryView>
    decreases s.len(),
{
    if s.len() == 0 {
        Seq::empty()
    } else if s.last().uri == uri {
        only_uri(s.drop_last(), uri).push(s.last())
    } else {
        only_uri(s.drop_last(), uri)
    }
}

/// The entries of `s` all belong to document `uri`.
pub open spec fn all_of_uri(s: Seq<SymbolEntryView>, uri: Seq<char>) -> bool {
    forall|i: int| 0 <= i < s.len() ==> s[i].uri == uri
}

proof fn lemma_drop_uri_concat(a: Seq<SymbolEntryView>, b: Seq<SymbolEntryView>, uri: Seq<char>)
    ensures
        drop_uri(a + b, uri) == drop_uri(a, uri) + drop_uri(b, uri),
    decreases b.len(),
{
    if b.len() == 0 {
        assert(a + b =~= a);
        assert(drop_uri(a, uri) + drop_uri(b, uri) =~= drop_uri(a, uri));
    } else {
        lemma_drop_uri_concat(a, b.drop_last(), uri);
        assert((a + b).drop_last() =~= a + b.drop_last());
        if b.last().uri != uri {
            assert(drop_uri(a, uri) + drop_uri(b.drop_last(), uri).push(b.last()) =~= (drop_uri(a, uri)
                + drop_uri(b.drop_last(), uri)).push(b.last()));
        }
    }
}

proof fn lemma_only_uri_concat(a: Seq<SymbolEntryView>, b: Seq<SymbolEntryView>, uri: Seq<char>)
    ensures
        only_uri(a + b, uri) == only_uri(a, uri) + only_uri(b, uri),
    decreases b.len(),
{
    if b.len() == 0 {
        assert(a + b =~= a);
        assert(only_uri(a, uri) + only_uri(b, uri) =~= only_uri(a, uri));
    } else {
        lemma_only_uri_concat(a, b.drop_last(), uri);
        assert((a + b).drop_last() =~= a + b.drop_last());
        if b.last().uri == uri {
            assert(only_uri(a, uri) + only_uri(b.drop_last(), uri).push(b.last()) =~= (only_uri(a, uri)
                + only_uri(b.drop_last(), uri)).push(b.last()));
        }
    }
}

proof fn lemma_drop_uri_all(s: Seq<SymbolEntryView>, uri: Seq<char>)
    ensures
        all_of_uri(s, uri) ==> drop_uri(s, uri) == Seq::<SymbolEntryView>::empty(),
        (forall|i: int| 0 <= i < s.len() ==> s[i].uri != uri) ==> drop_uri(s, uri) == s,
        drop_uri(drop_uri(s, uri), uri) == drop_uri(s, uri),
        forall|v: Seq<char>| v != uri ==> #[trigger] only_uri(drop_uri(s, uri), v) == only_uri(s, v),
    decreases s.len(),
{
    if s.len() > 0 {
        let p = s.drop_last();
        lemma_drop_uri_all(p, uri);
        assert(forall|i: int| 0 <= i < p.len() ==> p[i] == s[i]);
        if s.last().uri != uri {
            assert(drop_uri(s, uri).drop_last() =~= drop_uri(p, uri));
        }
        if (forall|i: int| 0 <= i < s.len() ==> s[i].uri != uri) {
            assert(forall|i: int| 0 <= i < p.len() ==> p[i].uri != uri);
        }
        assert forall|v: Seq<char>| v != uri implies #[trigger] only_uri(drop_uri(s, uri), v) == only_uri(s, v) by {
            if s.last().uri != uri {
                assert(drop_uri(s, uri).drop_last() =~= drop_uri(p, uri));
                assert(only_uri(drop_uri(p, uri), v) == only_uri(p, v));
            } else {
                assert(only_uri(drop_uri(p, uri), v) == only_uri(p, v));
            }
        }
    }
}

proof fn lemma_with_key_entries_of_uri(fs: Seq<FlatView>, uri: Seq<char>, source: DocumentSource, k: Seq<char>)
    ensures
        all_of_uri(with_key(entries_of(fs, uri, source), k), uri),
    decreases fs.len(),
{
    lemma_entries_of_uri(fs, uri, source);
    lemma_with_key_all(entries_of(fs, uri, source), uri, k);
}

proof fn lemma_entries_of_uri(fs: Seq<FlatView>, uri: Seq<char>, source: DocumentSource)
    ensures
        all_of_uri(entries_of(fs, uri, source), uri),
    decreases fs.len(),
{
    if fs.len() > 0 {
        lemma_entries_of_uri(fs.drop_last(), uri, source);
        let p = entries_of(fs.drop_last(), uri, source);
        assert(forall|i: int| 0 <= i < p.len() ==> entries_of(fs, uri, source)[i] == p[i]);
    }
}

proof fn lemma_with_key_all(s: Seq<SymbolEntryView>, uri: Seq<char>, k: Seq<char>)
    requires
        all_of_uri(s, uri),
    ensures
        all_of_uri(with_key(s, k), uri),
    decreases s.len(),
{
    if s.len() > 0 {
        let p = s.drop_last();
        assert(forall|i: int| 0 <= i < p.len() ==> p[i] == s[i]);
        lemma_with_key_all(p, uri, k);
    }
}

/// Closing a document that contributes no entry under a name leaves that
/// name's entries unchanged.
pub proof fn law_close_unknown_is_noop(gs: Seq<(Seq<char>, Seq<SymbolEntryView>)>, uri: Seq<char>, k: Seq<char>)
    requires
        forall|i: int| 0 <= i < group(gs, k).len() ==> group(gs, k)[i].uri != uri,
    ensures
        drop_uri(group(gs, k), uri) == group(gs, k),
{
    lemma_drop_uri_all(group(gs, k), uri);
}

/// Closing a document right after replacing its contribution leaves every
/// name as closing it straight away would: an upsert followed by a close of
/// the same document undoes the upsert.
pub proof fn law_close_undoes_upsert(
    gs: Seq<(Seq<char>, Seq<SymbolEntryView>)>,
    uri: Seq<char>,
    table: &SymbolTable,
    source: DocumentSource,
    k: Seq<char>,
)
    ensures
        drop_uri(drop_uri(group(gs, k), uri) + with_key(entries_of(flat_view(table), uri, source), k), uri)
            == drop_uri(group(gs, k), uri),
{
    let w = with_key(entries_of(flat_view(table), uri, source), k);
    lemma_drop_uri_concat(drop_uri(group(gs, k), uri), w, uri);
    lemma_with_key_entries_of_uri(flat_view(table), uri, source, k);
    lemma_drop_uri_all(w, uri);
    lemma_drop_uri_all(group(gs, k), uri);
    assert(drop_uri(group(gs, k), uri) + Seq::<SymbolEntryView>::empty() =~= drop_uri(group(gs, k), uri));
}

/// Replacing a document's contribution twice with the same definitions
/// gives the same entries under every name as doing it once.
pub proof fn law_upsert_idempotent(
    gs: Seq<(Seq<char>, Seq<SymbolEntryView>)>,
    uri: Seq<char>,
    table: &SymbolTable,
    source: DocumentSource,
    k: Seq<char>,
)
    ensures
        ({
            let once = drop_uri(group(gs, k), uri) + with_key(entries_of(flat_view(table), uri, source), k);
            drop_uri(once, uri) + with_key(entries_of(flat_view(table), uri, source), k) == once
        }),
{
    law_close_undoes_upsert(gs, uri, table, source, k);
}

/// Replacing or removing the contribution of one document leaves the entries
/// of every other document unchanged under every name.
pub proof fn law_other_documents_untouched(
    gs: Seq<(Seq<char>, Seq<SymbolEntryView>)>,
    uri: Seq<char>,
    other: Seq<char>,
    table: &SymbolTable,
    source: DocumentSource,
    k: Seq<char>,
)
    requires
        other != uri,
    ensures
        only_uri(drop_uri(group(gs, k), uri), other) == only_uri(group(gs, k), other),
        only_uri(drop_uri(group(gs, k), uri) + with_key(entries_of(flat_view(table), uri, source), k), other)
            == only_uri(group(gs, k), other),
{
    let w = with_key(entries_of(flat_view(table), uri, source), k);
    lemma_drop_uri_all(group(gs, k), uri);
    lemma_only_uri_concat(drop_uri(group(gs, k), uri), w, other);
    lemma_with_key_entries_of_uri(flat_view(table), uri, source, k);
    lemma_only_uri_none(w, uri, other);
    assert(only_uri(group(gs, k), other) + Seq::<SymbolEntryView>::empty() =~= only_uri(group(gs, k), other));
}

proof fn lemma_only_uri_none(s: Seq<SymbolEntryView>, uri: Seq<char>, other: Seq<char>)
    requires
        all_of_uri(s, uri),
        other != uri,
    ensures
        only_uri(s, other) == Seq::<SymbolEntryView>::empty(),
    decreases s.len(),
{
    if s.len() > 0 {
        let p = s.drop_last();
        assert(forall|i: int| 0 <= i < p.len() ==> p[i] == s[i]);
        lemma_only_uri_none(p, uri, other);
    }
}


proof fn lemma_entries_of_fields(fs: Seq<FlatView>, uri: Seq<char>, source: DocumentSource)
    ensures
        entries_of(fs, uri, source).len() == fs.len(),
        forall|j: int| 0 <= j < fs.len() ==> #[trigger] entries_of(fs, uri, source)[j] == entry_of(fs[j], uri, source),
    decreases fs.len(),
{
    if fs.len() > 0 {
        lemma_entries_of_fields(fs.drop_last(), uri, source);
    }
}

proof fn lemma_with_key_fields(s: Seq<SymbolEntryView>, k: Seq<char>, source: DocumentSource)
    requires
        forall|j: int| 0 <= j < s.len() ==> (#[trigger] s[j]).source == source,
    ensures
        forall|j: int| 0 <= j < with_key(s, k).len() ==> uppercase((#[trigger] with_key(s, k)[j]).name) == k
            && with_key(s, k)[j].source == source,
    decreases s.len(),
{
    if s.len() > 0 {
        let p = s.drop_last();
        assert(forall|j: int| 0 <= j < p.len() ==> p[j] == s[j]);
        lemma_with_key_fields(p, k, source);
    }
}

proof fn lemma_only_uri_drop(s: Seq<SymbolEntryView>, uri: Seq<char>)
    ensures
        only_uri(drop_uri(s, uri), uri) == Seq::<SymbolEntryView>::empty(),
    decreases s.len(),
{
    if s.len() > 0 {
        lemma_only_uri_drop(s.drop_last(), uri);
        if s.last().uri != uri {
            assert(drop_uri(s, uri).drop_last() =~= drop_uri(s.drop_last(), uri));
        }
    }
}

proof fn lemma_only_uri_all(s: Seq<SymbolEntryView>, uri: Seq<char>)
    requires
        all_of_uri(s, uri),
    ensures
        only_uri(s, uri) == s,
    decreases s.len(),
{
    if s.len() > 0 {
        let p = s.drop_last();
        assert(forall|j: int| 0 <= j < p.len() ==> p[j] == s[j]);
        lemma_only_uri_all(p, uri);
        assert(p.push(s.last()) =~= s);
    }
}

/// After an upsert of a document, its entries under a name are exactly the
/// entries made from the document's definitions whose names have that key,
/// in the order tables, procedures, views, indexes, triggers, variables:
/// each keeps its name as written, and carries the document URI and the
/// given source.
pub proof fn law_upsert_document_entries(
    gs: Seq<(Seq<char>, Seq<SymbolEntryView>)>,
    uri: Seq<char>,
    table: &SymbolTable,
    source: DocumentSource,
    k: Seq<char>,
)
    ensures
        ({
            let w = with_key(entries_of(flat_view(table), uri, source), k);
            &&& only_uri(drop_uri(group(gs, k), uri) + w, uri) == w
            &&& forall|j: int| 0 <= j < w.len() ==> (#[trigger] w[j]).uri == uri && w[j].source == source
                && uppercase(w[j].name) == k
            &&& forall|j: int| #![trigger w[j]] 0 <= j < w.len() ==> exists|f: int| 0 <= f < flat_view(table).len()
                && #[trigger] entry_of(flat_view(table)[f], uri, source) == w[j]
        }),
{
    let fs = flat_view(table);
    let es = entries_of(fs, uri, source);
    let w = with_key(es, k);
    lemma_entries_of_fields(fs, uri, source);
    lemma_with_key_fields(es, k, source);
    lemma_with_key_entries_of_uri(fs, uri, source, k);
    lemma_only_uri_concat(drop_uri(group(gs, k), uri), w, uri);
    lemma_only_uri_drop(group(gs, k), uri);
    lemma_only_uri_all(w, uri);
    assert(Seq::<SymbolEntryView>::empty() + w =~= w);
    assert forall|j: int| #![trigger w[j]] 0 <= j < w.len() implies exists|f: int| 0 <= f < fs.len()
        && #[trigger] entry_of(fs[f], uri, source) == w[j] by {
        lemma_with_key_in(es, k, j);
        let m = choose|m: int| 0 <= m < es.len() && es[m] == w[j];
        assert(entry_of(fs[m], uri, source) == w[j]);
    }
}

proof fn lemma_with_key_in(s: Seq<SymbolEntryView>, k: Seq<char>, j: int)
    requires
        0 <= j < with_key(s, k).len(),
    ensures
        exists|m: int| 0 <= m < s.len() && s[m] == with_key(s, k)[j],
    decreases s.len(),
{
    let p = s.drop_last();
    if uppercase(s.last().name) == k && j == with_key(s, k).len() - 1 {
        assert(s[s.len() - 1] == with_key(s, k)[j]);
    } else {
        lemma_with_key_in(p, k, j);
        let m = choose|m: int| 0 <= m < p.len() && p[m] == with_key(p, k)[j];
        assert(s[m] == p[m]);
    }
}

proof fn lemma_drop_uri_in(s: Seq<SymbolEntryView>, uri: Seq<char>, j: int)
    requires
        0 <= j < drop_uri(s, uri).len(),
    ensures
        exists|m: int| 0 <= m < s.len() && s[m] == drop_uri(s, uri)[j],
    decreases s.len(),
{
    let p = s.drop_last();
    if s.last().uri != uri && j == drop_uri(s, uri).len() - 1 {
        assert(s[s.len() - 1] == drop_uri(s, uri)[j]);
    } else {
        lemma_drop_uri_in(p, uri, j);
        let m = choose|m: int| 0 <= m < p.len() && p[m] == drop_uri(p, uri)[j];
        assert(s[m] == p[m]);
    }
}
} // verus!
