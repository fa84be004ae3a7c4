//! Symbol table: the tables, procedures, views, indexes, triggers and
//! variables that a document defines, each found by case-insensitive name.

use crate::position::Range;
use std::borrow::Borrow;
use vstd::prelude::*;
use vstd::string::*;

verus! {

/// What `str::to_uppercase` returns for a text: its Unicode upper-case form.
pub uninterp spec fn uppercase(s: Seq<char>) -> Seq<char>;

/// Calls `str::to_uppercase`; the result is the name [`uppercase`] applied
/// to the argument, and nothing more is claimed of it.
#[verifier::external_body]
pub(crate) fn to_uppercase(s: &str) -> (r: String)
    ensures
        r@ == uppercase(s@),
{
    s.to_uppercase()
}

/// Case-insensitive key: holds the upper-case form of a name.
#[derive(Debug, PartialEq, Eq, Hash)]
pub struct CaseInsensitiveKey {
    upper: String,
}

impl Clone for CaseInsensitiveKey {
    fn clone(&self) -> (k: Self)
        ensures
            k@ == self@,
    {
        CaseInsensitiveKey { upper: self.upper.clone() }
    }
}

impl View for CaseInsensitiveKey {
    type V = Seq<char>;

    closed spec fn view(&self) -> Seq<char> {
        self.upper@
    }
}

impl CaseInsensitiveKey {
    /// Build the key of a name: its upper-case form.
    pub fn new(name: &str) -> (k: CaseInsensitiveKey)
        ensures
            k@ == uppercase(name@),
    {
        CaseInsensitiveKey { upper: to_uppercase(name) }
    }

    /// The upper-case form held by the key.
    pub fn as_str(&self) -> (s: &str)
        ensures
            s@ == self@,
    {
        self.upper.as_str()
    }

    /// Whether two keys hold the same upper-case form.
    pub fn same(&self, other: &CaseInsensitiveKey) -> (r: bool)
        ensures
            r == (self@ == other@),
    {
        crate::text::str_eq(self.upper.as_str(), other.upper.as_str())
    }
}

impl Borrow<str> for CaseInsensitiveKey {
    /// The upper-case form held by the key.
    fn borrow(&self) -> (s: &str)
        ensures
            ({
                let t: &str = s;
                t@ == self@
            }),
    {
        self.upper.as_str()
    }
}

impl Borrow<String> for CaseInsensitiveKey {
    /// The upper-case form held by the key.
    fn borrow(&self) -> (s: &String)
        ensures
            ({
                let t: &String = s;
                t@ == self@
            }),
    {
        &self.upper
    }
}

/// A map from case-insensitive names to values, kept in insertion order;
/// inserting under a key that is present replaces its value in place.
pub struct SymbolMap<T> {
    entries: Vec<(CaseInsensitiveKey, T)>,
}

/// The keys of a sequence of entries are pairwise distinct.
pub open spec fn keys_distinct<T>(s: Seq<(Seq<char>, T)>) -> bool {
    forall|i: int, j: int| 0 <= i < j < s.len() ==> s[i].0 != s[j].0
}

/// Position of the entry under `key`, if any.
pub open spec fn key_index<T>(s: Seq<(Seq<char>, T)>, key: Seq<char>) -> Option<int> {
    if exists|i: int| 0 <= i < s.len() && s[i].0 == key {
        Some(choose|i: int| 0 <= i < s.len() && s[i].0 == key)
    } else {
        None
    }
}

/// The value under `key`, if any.
pub open spec fn value_of<T>(s: Seq<(Seq<char>, T)>, key: Seq<char>) -> Option<T> {
    match key_index(s, key) {
        Some(i) => Some(s[i].1),
        None => None,
    }
}

/// The entries after inserting `value` under `key`: the value of an existing
/// entry under `key` is replaced in place, otherwise the entry is appended.
pub open spec fn inserted<T>(s: Seq<(Seq<char>, T)>, key: Seq<char>, value: T) -> Seq<(Seq<char>, T)> {
    match key_index(s, key) {
        Some(i) => s.update(i, (key, value)),
        None => s.push((key, value)),
    }
}

impl<T> View for SymbolMap<T> {
    type V = Seq<(Seq<char>, T)>;

    closed spec fn view(&self) -> Seq<(Seq<char>, T)> {
        self.entries@.map_values(|e: (CaseInsensitiveKey, T)| (e.0@, e.1))
    }
}

impl<T> SymbolMap<T> {
    #[verifier::type_invariant]
    spec fn inv(self) -> bool {
        keys_distinct(self@)
    }

    /// The keys of a map are pairwise distinct.
    pub fn keys_are_distinct(&self)
        ensures
            keys_distinct(self@),
    {
        proof {
            use_type_invariant(self);
        }
    }

    /// An empty map.
    pub fn new() -> (m: SymbolMap<T>)
        ensures
            m@ == Seq::<(Seq<char>, T)>::empty(),
    {
        let m = SymbolMap { entries: Vec::new() };
        assert(m@ =~= Seq::<(Seq<char>, T)>::empty());
        m
    }

    /// Number of entries.
    pub fn len(&self) -> (n: usize)
        ensures
            n == self@.len(),
    {
        self.entries.len()
    }

    /// Whether the map has no entry.
    pub fn is_empty(&self) -> (r: bool)
        ensures
            r == (self@.len() == 0),
    {
        self.entries.len() == 0
    }

    /// The key and value at position `i` of the insertion order.
    pub fn entry_at(&self, i: usize) -> (r: (&CaseInsensitiveKey, &T))
        requires
            i < self@.len(),
        ensures
            r.0@ == self@[i as int].0,
            *r.1 == self@[i as int].1,
    {
        let e = &self.entries[i];
        (&e.0, &e.1)
    }

    fn position(&self, key: &CaseInsensitiveKey) -> (r: Option<usize>)
        ensures
            match r {
                Some(i) => key_index(self@, key@) == Some(i as int),
                None => key_index(self@, key@) is None,
            },
    {
        proof {
            use_type_invariant(self);
        }
        let mut i: usize = 0;
        while i < self.entries.len()
            invariant
                i <= self@.len(),
                self@.len() == self.entries@.len(),
                keys_distinct(self@),
                forall|k: int| 0 <= k < i ==> self@[k].0 != key@,
            decreases self@.len() - i,
        {
            if self.entries[i].0.same(key) {
                assert(self@[i as int].0 == key@);
                return Some(i);
            }
            i = i + 1;
        }
        None
    }

    /// Insert `value` under `key`, replacing the value of an existing entry
    /// under the same key in place.
    pub fn insert(&mut self, key: CaseInsensitiveKey, value: T)
        ensures
            final(self)@ == inserted(old(self)@, key@, value),
    {
        proof {
            use_type_invariant(&*self);
        }
        let ghost k = key@;
        let pos = self.position(&key);
        let mut entries: Vec<(CaseInsensitiveKey, T)> = Vec::new();
        std::mem::swap(&mut entries, &mut self.entries);
        match pos {
            Some(i) => {
                entries.set(i, (key, value));
            },
            None => {
                entries.push((key, value));
            },
        }
        let ghost v = entries@.map_values(|e: (CaseInsensitiveKey, T)| (e.0@, e.1));
        assert(v =~= inserted(old(self)@, k, value));
        proof {
            let o = old(self)@;
            if let Some(i) = key_index(o, k) {
                assert forall|a: int, b: int| 0 <= a < b < v.len() implies v[a].0 != v[b].0 by {
                    if a != i && b != i {
                        assert(v[a] == o[a] && v[b] == o[b]);
                    }
                }
            } else {
                assert forall|a: int, b: int| 0 <= a < b < v.len() implies v[a].0 != v[b].0 by {
                    if b < o.len() {
                        assert(v[a] == o[a] && v[b] == o[b]);
                    }
                }
            }
        }
        self.entries = entries;
    }

    /// The value under the key of `name`.
    pub fn get(&self, name: &str) -> (r: Option<&T>)
        ensures
            match r {
                Some(v) => value_of(self@, uppercase(name@)) == Some(*v),
                None => value_of(self@, uppercase(name@)) is None,
            },
    {
        let key = CaseInsensitiveKey::new(name);
        match self.position(&key) {
            Some(i) => Some(&self.entries[i].1),
            None => None,
        }
    }

    /// Whether an entry exists under the key of `name`.
    pub fn contains_key(&self, name: &str) -> (r: bool)
        ensures
            r == (key_index(self@, uppercase(name@)) is Some),
    {
        let key = CaseInsensitiveKey::new(name);
        self.position(&key).is_some()
    }
}

/// Table defined by `CREATE TABLE`.
#[derive(Debug, Clone)]
pub struct TableSymbol {
    /// Table name as written.
    pub name: String,
    /// Range of the table name.
    pub range: Range,
    /// Columns in definition order.
    pub columns: Vec<ColumnSymbol>,
    /// Table constraints.
    pub constraints: Vec<ConstraintInfo>,
    /// Whether the table is temporary (`#` or `##` prefix).
    pub is_temporary: bool,
}

/// Column of a table definition.
#[derive(Debug, Clone)]
pub struct ColumnSymbol {
    /// Column name.
    pub name: String,
    /// Range of the column name.
    pub range: Range,
    /// Data type, as written out.
    pub data_type: String,
    /// Declared nullability (`None` when unspecified).
    pub nullable: Option<bool>,
    /// Whether the column is an IDENTITY column.
    pub is_identity: bool,
    /// Owning table name.
    pub table_name: String,
}

/// Constraint of a table.
#[derive(Debug, Clone)]
pub struct ConstraintInfo {
    /// Constraint name, when given.
    pub name: Option<String>,
    /// Kind of constraint.
    pub kind: ConstraintKind,
}

/// Kind of a table constraint.
#[derive(Debug, Clone)]
pub enum ConstraintKind {
    /// `PRIMARY KEY (columns...)`
    PrimaryKey {
        /// Key columns.
        columns: Vec<String>,
    },
    /// `FOREIGN KEY (columns...) REFERENCES ref_table (ref_columns)`
    Foreign {
        /// Key columns.
        columns: Vec<String>,
        /// Referenced table.
        ref_table: String,
        /// Referenced columns.
        ref_columns: Vec<String>,
    },
    /// `UNIQUE (columns...)`
    Unique {
        /// Unique columns.
        columns: Vec<String>,
    },
}

/// Procedure defined by `CREATE PROCEDURE`.
#[derive(Debug, Clone)]
pub struct ProcedureSymbol {
    /// Procedure name as written.
    pub name: String,
    /// Range of the procedure name.
    pub range: Range,
    /// Parameters in declaration order.
    pub parameters: Vec<ParameterSymbol>,
    /// Variables declared in the body.
    pub body_variables: Vec<VariableSymbol>,
}

/// Parameter of a procedure.
#[derive(Debug, Clone)]
pub struct ParameterSymbol {
    /// Parameter name, with its `@`.
    pub name: String,
    /// Range of the parameter name.
    pub range: Range,
    /// Data type, as written out.
    pub data_type: String,
    /// Whether the parameter is declared OUTPUT.
    pub is_output: bool,
}

/// View defined by `CREATE VIEW`.
#[derive(Debug, Clone)]
pub struct ViewSymbol {
    /// View name as written.
    pub name: String,
    /// Range of the view name.
    pub range: Range,
}

/// Index defined by `CREATE [UNIQUE] INDEX`.
#[derive(Debug, Clone)]
pub struct IndexSymbol {
    /// Index name as written.
    pub name: String,
    /// Range of the index name.
    pub range: Range,
    /// Indexed table.
    pub table_name: String,
    /// Indexed columns.
    pub columns: Vec<String>,
    /// Whether the index is unique.
    pub is_unique: bool,
}

/// Variable declared by `DECLARE`.
#[derive(Debug, Clone)]
pub struct VariableSymbol {
    /// Variable name, with its `@`.
    pub name: String,
    /// Range of the variable name.
    pub range: Range,
    /// Data type, as written out.
    pub data_type: String,
}

/// Trigger defined by `CREATE TRIGGER`.
#[derive(Debug, Clone)]
pub struct TriggerSymbol {
    /// Trigger name as written.
    pub name: String,
    /// Range of the trigger definition.
    pub range: Range,
    /// Table the trigger is defined on.
    pub table_name: String,
    /// Trigger events, each named `Insert`, `Update` or `Delete`.
    pub events: Vec<String>,
}

/// The symbols a document defines.
pub struct SymbolTable {
    /// Tables.
    pub tables: SymbolMap<TableSymbol>,
    /// Procedures.
    pub procedures: SymbolMap<ProcedureSymbol>,
    /// Views.
    pub views: SymbolMap<ViewSymbol>,
    /// Indexes.
    pub indexes: SymbolMap<IndexSymbol>,
    /// Triggers.
    pub triggers: SymbolMap<TriggerSymbol>,
    /// Variables declared at top level.
    pub variables: SymbolMap<VariableSymbol>,
}

/// The texts of a sequence of strings.
pub open spec fn strs(v: Seq<String>) -> Seq<Seq<char>> {
    v.map_values(|x: String| x@)
}

/// The text of an optional string.
pub open spec fn opt_str(o: Option<String>) -> Option<Seq<char>> {
    match o {
        Some(x) => Some(x@),
        None => None,
    }
}

/// Content of a [`ColumnSymbol`].
pub struct ColumnModel {
    /// Column name.
    pub name: Seq<char>,
    /// Range of the column name.
    pub range: Range,
    /// Data type.
    pub data_type: Seq<char>,
    /// Declared nullability.
    pub nullable: Option<bool>,
    /// Whether the column is an IDENTITY column.
    pub is_identity: bool,
    /// Owning table name.
    pub table_name: Seq<char>,
}

impl View for ColumnSymbol {
    type V = ColumnModel;

    open spec fn view(&self) -> ColumnModel {
        ColumnModel {
            name: self.name@,
            range: self.range,
            data_type: self.data_type@,
            nullable: self.nullable,
            is_identity: self.is_identity,
            table_name: self.table_name@,
        }
    }
}

/// Content of a [`ConstraintKind`].
pub enum ConstraintKindModel {
    /// Primary key over columns.
    PrimaryKey { columns: Seq<Seq<char>> },
    /// Foreign key.
    Foreign { columns: Seq<Seq<char>>, ref_table: Seq<char>, ref_columns: Seq<Seq<char>> },
    /// Unique columns.
    Unique { columns: Seq<Seq<char>> },
}

/// Content of a [`ConstraintInfo`].
pub struct ConstraintModel {
    /// Constraint name.
    pub name: Option<Seq<char>>,
    /// Kind of constraint.
    pub kind: ConstraintKindModel,
}

impl View for ConstraintInfo {
    type V = ConstraintModel;

    open spec fn view(&self) -> ConstraintModel {
        ConstraintModel {
            name: opt_str(self.name),
            kind: match self.kind {
                ConstraintKind::PrimaryKey { columns } => ConstraintKindModel::PrimaryKey { columns: strs(columns@) },
                ConstraintKind::Foreign { columns, ref_table, ref_columns } => ConstraintKindModel::Foreign {
                    columns: strs(columns@),
                    ref_table: ref_table@,
                    ref_columns: strs(ref_columns@),
                },
                ConstraintKind::Unique { columns } => ConstraintKindModel::Unique { columns: strs(columns@) },
            },
        }
    }
}

/// Content of a [`TableSymbol`].
pub struct TableModel {
    /// Table name.
    pub name: Seq<char>,
    /// Range of the table name.
    pub range: Range,
    /// Columns in order.
    pub columns: Seq<ColumnModel>,
    /// Constraints in order.
    pub constraints: Seq<ConstraintModel>,
    /// Whether the table is temporary.
    pub is_temporary: bool,
}

impl View for TableSymbol {
    type V = TableModel;

    open spec fn view(&self) -> TableModel {
        TableModel {
            name: self.name@,
            range: self.range,
            columns: self.columns@.map_values(|c: ColumnSymbol| c@),
            constraints: self.constraints@.map_values(|c: ConstraintInfo| c@),
            is_temporary: self.is_temporary,
        }
    }
}

/// Content of a [`ParameterSymbol`].
pub struct ParameterModel {
    /// Parameter name.
    pub name: Seq<char>,
    /// Range of the name.
    pub range: Range,
    /// Data type.
    pub data_type: Seq<char>,
    /// Whether the parameter is OUTPUT.
    pub is_output: bool,
}

impl View for ParameterSymbol {
    type V = ParameterModel;

    open spec fn view(&self) -> ParameterModel {
        ParameterModel { name: self.name@, range: self.range, data_type: self.data_type@, is_output: self.is_output }
    }
}

/// Content of a [`VariableSymbol`].
pub struct VariableModel {
    /// Variable name.
    pub name: Seq<char>,
    /// Range of the name.
    pub range: Range,
    /// Data type.
    pub data_type: Seq<char>,
}

impl View for VariableSymbol {
    type V = VariableModel;

    open spec fn view(&self) -> VariableModel {
        VariableModel { name: self.name@, range: self.range, data_type: self.data_type@ }
    }
}

/// The contents of a sequence of variables.
pub open spec fn variable_models(v: Seq<VariableSymbol>) -> Seq<VariableModel> {
    v.map_values(|x: VariableSymbol| x@)
}

/// Content of a [`ProcedureSymbol`].
pub struct ProcedureModel {
    /// Procedure name.
    pub name: Seq<char>,
    /// Range of the name.
    pub range: Range,
    /// Parameters in order.
    pub parameters: Seq<ParameterModel>,
    /// Body variables in order.
    pub body_variables: Seq<VariableModel>,
}

impl View for ProcedureSymbol {
    type V = ProcedureModel;

    open spec fn view(&self) -> ProcedureModel {
        ProcedureModel {
            name: self.name@,
            range: self.range,
            parameters: self.parameters@.map_values(|x: ParameterSymbol| x@),
            body_variables: variable_models(self.body_variables@),
        }
    }
}

/// Content of a [`ViewSymbol`].
pub struct ViewModel {
    /// View name.
    pub name: Seq<char>,
    /// Range of the name.
    pub range: Range,
}

impl View for ViewSymbol {
    type V = ViewModel;

    open spec fn view(&self) -> ViewModel {
        ViewModel { name: self.name@, range: self.range }
    }
}

/// Content of an [`IndexSymbol`].
pub struct IndexModel {
    /// Index name.
    pub name: Seq<char>,
    /// Range of the name.
    pub range: Range,
    /// Indexed table.
    pub table_name: Seq<char>,
    /// Indexed columns.
    pub columns: Seq<Seq<char>>,
    /// Whether the index is unique.
    pub is_unique: bool,
}

impl View for IndexSymbol {
    type V = IndexModel;

    open spec fn view(&self) -> IndexModel {
        IndexModel {
            name: self.name@,
            range: self.range,
            table_name: self.table_name@,
            columns: strs(self.columns@),
            is_unique: self.is_unique,
        }
    }
}

/// Content of a [`TriggerSymbol`].
pub struct TriggerModel {
    /// Trigger name.
    pub name: Seq<char>,
    /// Range of the definition.
    pub range: Range,
    /// Table name.
    pub table_name: Seq<char>,
    /// Events.
    pub events: Seq<Seq<char>>,
}

impl View for TriggerSymbol {
    type V = TriggerModel;

    open spec fn view(&self) -> TriggerModel {
        TriggerModel { name: self.name@, range: self.range, table_name: self.table_name@, events: strs(self.events@) }
    }
}

/// Content of a [`SymbolTable`]: each kind's entries, keyed by upper-case name,
/// in insertion order.
pub struct SymbolTableModel {
    /// Tables.
    pub tables: Seq<(Seq<char>, TableModel)>,
    /// Procedures.
    pub procedures: Seq<(Seq<char>, ProcedureModel)>,
    /// Views.
    pub views: Seq<(Seq<char>, ViewModel)>,
    /// Indexes.
    pub indexes: Seq<(Seq<char>, IndexModel)>,
    /// Triggers.
    pub triggers: Seq<(Seq<char>, TriggerModel)>,
    /// Top-level variables.
    pub variables: Seq<(Seq<char>, VariableModel)>,
}

/// The contents of a map's entries.
pub open spec fn entry_models<T: View>(s: Seq<(Seq<char>, T)>) -> Seq<(Seq<char>, T::V)> {
    s.map_values(|e: (Seq<char>, T)| (e.0, e.1@))
}

/// Inserting commutes with taking contents, for entries with distinct keys.
pub proof fn lemma_inserted_models<T: View>(s: Seq<(Seq<char>, T)>, key: Seq<char>, value: T)
    requires
        keys_distinct(s),
    ensures
        entry_models(inserted(s, key, value)) == inserted(entry_models(s), key, value@),
{
    let m = entry_models(s);
    assert(forall|i: int| 0 <= i < s.len() ==> m[i].0 == #[trigger] s[i].0);
    match key_index(s, key) {
        Some(i) => {
            let j = choose|j: int| 0 <= j < m.len() && m[j].0 == key;
            assert(m[i].0 == key);
            assert(key_index(m, key) == Some(j));
            assert(s[j].0 == key);
            assert(i == j);
            assert(entry_models(inserted(s, key, value)) =~= inserted(m, key, value@));
        },
        None => {
            assert(key_index(m, key) is None) by {
                if exists|j: int| 0 <= j < m.len() && m[j].0 == key {
                    let j = choose|j: int| 0 <= j < m.len() && m[j].0 == key;
                    assert(s[j].0 == key);
                }
            }
            assert(entry_models(inserted(s, key, value)) =~= inserted(m, key, value@));
        },
    }
}

impl View for SymbolTable {
    type V = SymbolTableModel;

    open spec fn view(&self) -> SymbolTableModel {
        SymbolTableModel {
            tables: entry_models(self.tables@),
            procedures: entry_models(self.procedures@),
            views: entry_models(self.views@),
            indexes: entry_models(self.indexes@),
            triggers: entry_models(self.triggers@),
            variables: entry_models(self.variables@),
        }
    }
}

/// Whether an entry exists under `key`.
pub open spec fn has_key<T>(s: Seq<(Seq<char>, T)>, key: Seq<char>) -> bool {
    key_index(s, key) is Some
}

/// Semantic token type of a name: 9 (class) for tables, views and indexes,
/// 2 (function) for procedures.
pub open spec fn semantic_type_of(t: &SymbolTable, name: Seq<char>) -> Option<u32> {
    let k = uppercase(name);
    if has_key(t.tables@, k) || has_key(t.views@, k) || has_key(t.indexes@, k) {
        Some(9u32)
    } else if has_key(t.procedures@, k) {
        Some(2u32)
    } else {
        None
    }
}

impl SymbolTable {
    /// An empty symbol table.
    pub fn new() -> (t: SymbolTable)
        ensures
            t.tables@.len() == 0,
            t.procedures@.len() == 0,
            t.views@.len() == 0,
            t.indexes@.len() == 0,
            t.triggers@.len() == 0,
            t.variables@.len() == 0,
    {
        SymbolTable {
            tables: SymbolMap::new(),
            procedures: SymbolMap::new(),
            views: SymbolMap::new(),
            indexes: SymbolMap::new(),
            triggers: SymbolMap::new(),
            variables: SymbolMap::new(),
        }
    }

    /// Semantic token type of an identifier: `Some(9)` (class) for tables,
    /// views and indexes, `Some(2)` (function) for procedures, else `None`.
    pub fn resolve_semantic_type(&self, name: &str) -> (r: Option<u32>)
        ensures
            r == semantic_type_of(self, name@),
    {
        if self.tables.contains_key(name) || self.views.contains_key(name)
            || self.indexes.contains_key(name) {
            return Some(9);
        }
        if self.procedures.contains_key(name) {
            return Some(2);
        }
        None
    }
}

/// Builder and case-insensitive finders over a [`SymbolTable`].
pub struct SymbolTableBuilder;

/// The name under which a variable is looked up: `name` itself when it
/// starts with `@`, otherwise `@` followed by `name`.
pub open spec fn variable_lookup_name(name: Seq<char>) -> Seq<char> {
    if name.len() > 0 && name[0] == '@' {
        name
    } else {
        seq!['@'] + name
    }
}

impl SymbolTableBuilder {
    /// Table by name (case-insensitive).
    pub fn find_table<'a>(table: &'a SymbolTable, name: &str) -> (r: Option<&'a TableSymbol>)
        ensures
            match r {
                Some(v) => value_of(table.tables@, uppercase(name@)) == Some(*v),
                None => value_of(table.tables@, uppercase(name@)) is None,
            },
    {
        table.tables.get(name)
    }

    /// Procedure by name (case-insensitive).
    pub fn find_procedure<'a>(table: &'a SymbolTable, name: &str) -> (r: Option<&'a ProcedureSymbol>)
        ensures
            match r {
                Some(v) => value_of(table.procedures@, uppercase(name@)) == Some(*v),
                None => value_of(table.procedures@, uppercase(name@)) is None,
            },
    {
        table.procedures.get(name)
    }

    /// View by name (case-insensitive).
    pub fn find_view<'a>(table: &'a SymbolTable, name: &str) -> (r: Option<&'a ViewSymbol>)
        ensures
            match r {
                Some(v) => value_of(table.views@, uppercase(name@)) == Some(*v),
                None => value_of(table.views@, uppercase(name@)) is None,
            },
    {
        table.views.get(name)
    }

    /// Index by name (case-insensitive).
    pub fn find_index<'a>(table: &'a SymbolTable, name: &str) -> (r: Option<&'a IndexSymbol>)
        ensures
            match r {
                Some(v) => value_of(table.indexes@, uppercase(name@)) == Some(*v),
                None => value_of(table.indexes@, uppercase(name@)) is None,
            },
    {
        table.indexes.get(name)
    }

    /// Trigger by name (case-insensitive).
    pub fn find_trigger<'a>(table: &'a SymbolTable, name: &str) -> (r: Option<&'a TriggerSymbol>)
        ensures
            match r {
                Some(v) => value_of(table.triggers@, uppercase(name@)) == Some(*v),
                None => value_of(table.triggers@, uppercase(name@)) is None,
            },
    {
        table.triggers.get(name)
    }

    /// Variable by name (case-insensitive); an `@` is put in front of a name
    /// that does not start with one.
    pub fn find_variable<'a>(table: &'a SymbolTable, name: &str) -> (r: Option<&'a VariableSymbol>)
        ensures
            match r {
                Some(v) => value_of(table.variables@, uppercase(variable_lookup_name(name@))) == Some(*v),
                None => value_of(table.variables@, uppercase(variable_lookup_name(name@))) is None,
            },
    {
        let b = name.as_bytes();
        if b.len() > 0 && b[0] == 64u8 {
            proof {
                crate::text::lemma_first_byte_ascii(name@, '@');
                assert(variable_lookup_name(name@) == name@);
            }
            table.variables.get(name)
        } else {
            proof {
                crate::text::lemma_first_byte_ascii(name@, '@');
                reveal_strlit("@");
                assert(!(name@.len() > 0 && name@[0] == '@'));
            }
            let prefixed = String::from_str("@").concat(name);
            assert(prefixed@ =~= variable_lookup_name(name@));
            table.variables.get(prefixed.as_str())
        }
    }
}


/// In entries with distinct keys, inserting a value under a key makes it the
/// value under that key, leaves the value under every other key unchanged,
/// and keeps the keys distinct.
pub proof fn law_insert_then_get<T>(s: Seq<(Seq<char>, T)>, key: Seq<char>, value: T, other: Seq<char>)
    requires
        keys_distinct(s),
    ensures
        value_of(inserted(s, key, value), key) == Some(value),
        other != key ==> value_of(inserted(s, key, value), other) == value_of(s, other),
        keys_distinct(inserted(s, key, value)),
{
    let t = inserted(s, key, value);
    match key_index(s, key) {
        Some(i) => {
            assert(t[i].0 == key);
            let j = choose|j: int| 0 <= j < t.len() && t[j].0 == key;
            if j != i {
                assert(s[j].0 == key);
            }
            assert forall|a: int, b: int| 0 <= a < b < t.len() implies t[a].0 != t[b].0 by {
                if a != i && b != i {
                    assert(t[a] == s[a] && t[b] == s[b]);
                }
            }
        },
        None => {
            assert(t[s.len() as int].0 == key);
            let j = choose|j: int| 0 <= j < t.len() && t[j].0 == key;
            if j < s.len() {
                assert(s[j].0 == key);
            }
            assert forall|a: int, b: int| 0 <= a < b < t.len() implies t[a].0 != t[b].0 by {
                if b < s.len() {
                    assert(t[a] == s[a] && t[b] == s[b]);
                } else {
                    assert(s[a].0 != key);
                }
            }
        },
    }
    if other != key {
        if exists|j: int| 0 <= j < s.len() && s[j].0 == other {
            let j = choose|j: int| 0 <= j < s.len() && s[j].0 == other;
            assert(t[j].0 == other);
            let m = choose|m: int| 0 <= m < t.len() && t[m].0 == other;
            assert(m < s.len() && t[m] == s[m]);
        } else {
            if exists|m: int| 0 <= m < t.len() && t[m].0 == other {
                let m = choose|m: int| 0 <= m < t.len() && t[m].0 == other;
                assert(m < s.len() ==> t[m] == s[m] || t[m].0 == key);
            }
        }
    }
}

} // verus!
