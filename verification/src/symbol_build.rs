//! Building a symbol table from parsed statements: every definition and
//! declaration is entered under the upper-case form of its name, a later one
//! replacing an earlier one of the same kind and name, and nested blocks,
//! branches, loops and TRY/CATCH blocks are walked in source order.

use crate::ast::{
    ColumnDefinition, CreateStatement, Ident, ParameterDefinition, Statement, TableConstraint,
    TableDefinition, VariableDeclaration,
};
use crate::line_index::{line_starts, position_offset, range_at, LineIndex};
use crate::position::{Position, Range};
use crate::symbol_table::{
    entry_models, inserted, keys_distinct, law_insert_then_get, value_of, lemma_inserted_models, strs, uppercase, CaseInsensitiveKey,
    ColumnModel, ColumnSymbol, ConstraintInfo, ConstraintKind, ConstraintKindModel,
    ConstraintModel, IndexModel, IndexSymbol, ParameterModel, ParameterSymbol, ProcedureModel,
    ProcedureSymbol, SymbolMap, SymbolTable, SymbolTableBuilder, SymbolTableModel, TableModel,
    TableSymbol, TriggerModel, TriggerSymbol, VariableModel, VariableSymbol, ViewModel,
    ViewSymbol, variable_models,
};
use crate::token::{Span, OwnedToken, TokenKind};
use vstd::prelude::*;
use vstd::string::*;

verus! {

broadcast use vstd::seq_lib::group_seq_properties;

/// The range of a byte span under the given line starts.
pub open spec fn span_range(li: Seq<u32>, sp: Span) -> Range {
    range_at(li, sp.start as int, sp.end as int)
}

/// The names of a sequence of identifiers.
pub open spec fn ident_names(v: Seq<Ident>) -> Seq<Seq<char>> {
    v.map_values(|i: Ident| i.name@)
}

/// The name of an optional identifier.
pub open spec fn opt_ident_name(o: Option<Ident>) -> Option<Seq<char>> {
    match o {
        Some(i) => Some(i.name@),
        None => None,
    }
}

/// The column entry of a column definition of table `table`.
pub open spec fn column_model_of(li: Seq<u32>, table: Seq<char>, c: ColumnDefinition) -> ColumnModel {
    ColumnModel {
        name: c.name.name@,
        range: span_range(li, c.name.span),
        data_type: c.data_type@,
        nullable: c.nullability,
        is_identity: c.identity,
        table_name: table,
    }
}

/// The constraint entries of table constraints, in order; CHECK constraints
/// are left out.
pub open spec fn constraint_models(cs: Seq<TableConstraint>) -> Seq<ConstraintModel>
    decreases cs.len(),
{
    if cs.len() == 0 {
        Seq::empty()
    } else {
        let prev = constraint_models(cs.drop_last());
        match cs.last() {
            TableConstraint::PrimaryKey { name, columns } => prev.push(ConstraintModel {
                name: opt_ident_name(name),
                kind: ConstraintKindModel::PrimaryKey { columns: ident_names(columns@) },
            }),
            TableConstraint::Foreign { name, columns, ref_table, ref_columns } => prev.push(ConstraintModel {
                name: opt_ident_name(name),
                kind: ConstraintKindModel::Foreign {
                    columns: ident_names(columns@),
                    ref_table: ref_table.name@,
                    ref_columns: ident_names(ref_columns@),
                },
            }),
            TableConstraint::Unique { name, columns } => prev.push(ConstraintModel {
                name: opt_ident_name(name),
                kind: ConstraintKindModel::Unique { columns: ident_names(columns@) },
            }),
            TableConstraint::Check => prev,
        }
    }
}

/// The table entry of a `CREATE TABLE`.
pub open spec fn table_model_of(li: Seq<u32>, td: TableDefinition) -> TableModel {
    TableModel {
        name: td.name.name@,
        range: span_range(li, td.name.span),
        columns: td.columns@.map_values(|c: ColumnDefinition| column_model_of(li, td.name.name@, c)),
        constraints: constraint_models(td.constraints@),
        is_temporary: td.temporary,
    }
}

/// The parameter entry of a procedure parameter.
pub open spec fn parameter_model_of(li: Seq<u32>, p: ParameterDefinition) -> ParameterModel {
    ParameterModel {
        name: p.name.name@,
        range: span_range(li, p.name.span),
        data_type: p.data_type@,
        is_output: p.is_output,
    }
}

/// The variable entry of a declared variable.
pub open spec fn variable_model_of(li: Seq<u32>, v: VariableDeclaration) -> VariableModel {
    VariableModel { name: v.name.name@, range: span_range(li, v.name.span), data_type: v.data_type@ }
}

/// Every variable declared in a statement, nested blocks included, in source
/// order.
pub open spec fn statement_variables(li: Seq<u32>, s: Statement) -> Seq<VariableModel>
    decreases s,
{
    match s {
        Statement::Declare { variables, .. } => variables@.map_values(
            |v: VariableDeclaration| variable_model_of(li, v),
        ),
        Statement::Block(b) => statements_variables(li, b.statements@),
        Statement::If { then_branch, else_branch, .. } => statement_variables(li, *then_branch) + match else_branch {
            Some(e) => statement_variables(li, *e),
            None => Seq::empty(),
        },
        Statement::While { body, .. } => statement_variables(li, *body),
        Statement::TryCatch { try_block, catch_block, .. } => statements_variables(li, try_block.statements@)
            + statements_variables(li, catch_block.statements@),
        _ => Seq::empty(),
    }
}

/// Every variable declared in a sequence of statements, in source order.
pub open spec fn statements_variables(li: Seq<u32>, ss: Seq<Statement>) -> Seq<VariableModel>
    decreases ss,
{
    if ss.len() == 0 {
        Seq::empty()
    } else {
        statements_variables(li, ss.drop_last()) + statement_variables(li, ss.last())
    }
}

/// The procedure entry of a `CREATE PROCEDURE`.
pub open spec fn procedure_model_of(li: Seq<u32>, pd: crate::ast::ProcedureDefinition) -> ProcedureModel {
    ProcedureModel {
        name: pd.name.name@,
        range: span_range(li, pd.name.span),
        parameters: pd.parameters@.map_values(|p: ParameterDefinition| parameter_model_of(li, p)),
        body_variables: statements_variables(li, pd.body@),
    }
}

/// Top-level variables after declaring `ds` in order.
pub open spec fn declare_into(
    li: Seq<u32>,
    vars: Seq<(Seq<char>, VariableModel)>,
    ds: Seq<VariableDeclaration>,
) -> Seq<(Seq<char>, VariableModel)>
    decreases ds.len(),
{
    if ds.len() == 0 {
        vars
    } else {
        inserted(
            declare_into(li, vars, ds.drop_last()),
            uppercase(ds.last().name.name@),
            variable_model_of(li, ds.last()),
        )
    }
}

/// The table after entering one definition.
pub open spec fn with_create(li: Seq<u32>, t: SymbolTableModel, c: CreateStatement) -> SymbolTableModel {
    match c {
        CreateStatement::Table(td) => SymbolTableModel {
            tables: inserted(t.tables, uppercase(td.name.name@), table_model_of(li, td)),
            ..t
        },
        CreateStatement::Procedure(pd) => SymbolTableModel {
            procedures: inserted(t.procedures, uppercase(pd.name.name@), procedure_model_of(li, pd)),
            ..t
        },
        CreateStatement::View(vd) => SymbolTableModel {
            views: inserted(
                t.views,
                uppercase(vd.name.name@),
                ViewModel { name: vd.name.name@, range: span_range(li, vd.name.span) },
            ),
            ..t
        },
        CreateStatement::Index(idx) => SymbolTableModel {
            indexes: inserted(
                t.indexes,
                uppercase(idx.name.name@),
                IndexModel {
                    name: idx.name.name@,
                    range: span_range(li, idx.name.span),
                    table_name: idx.table.name@,
                    columns: ident_names(idx.columns@),
                    is_unique: idx.unique,
                },
            ),
            ..t
        },
        CreateStatement::Trigger(tr) => SymbolTableModel {
            triggers: inserted(
                t.triggers,
                uppercase(tr.name.name@),
                TriggerModel {
                    name: tr.name.name@,
                    range: span_range(li, tr.span),
                    table_name: tr.table.name@,
                    events: strs(tr.events@),
                },
            ),
            ..t
        },
    }
}

/// The table after walking one statement.
pub open spec fn collect_statement(li: Seq<u32>, t: SymbolTableModel, s: Statement) -> SymbolTableModel
    decreases s,
{
    match s {
        Statement::Create(c) => with_create(li, t, *c),
        Statement::Declare { variables, .. } => SymbolTableModel {
            variables: declare_into(li, t.variables, variables@),
            ..t
        },
        Statement::Block(b) => collect_statements(li, t, b.statements@),
        Statement::If { then_branch, else_branch, .. } => {
            let t1 = collect_statement(li, t, *then_branch);
            match else_branch {
                Some(e) => collect_statement(li, t1, *e),
                None => t1,
            }
        },
        Statement::While { body, .. } => collect_statement(li, t, *body),
        Statement::TryCatch { try_block, catch_block, .. } => collect_statements(
            li,
            collect_statements(li, t, try_block.statements@),
            catch_block.statements@,
        ),
        _ => t,
    }
}

/// The table after walking a sequence of statements in order.
pub open spec fn collect_statements(li: Seq<u32>, t: SymbolTableModel, ss: Seq<Statement>) -> SymbolTableModel
    decreases ss,
{
    if ss.len() == 0 {
        t
    } else {
        collect_statement(li, collect_statements(li, t, ss.drop_last()), ss.last())
    }
}

/// The table with no entry.
pub open spec fn empty_model() -> SymbolTableModel {
    SymbolTableModel {
        tables: Seq::empty(),
        procedures: Seq::empty(),
        views: Seq::empty(),
        indexes: Seq::empty(),
        triggers: Seq::empty(),
        variables: Seq::empty(),
    }
}

fn span_to_range(li: &LineIndex, span: Span) -> (r: Range)
    ensures
        r == span_range(li@, span),
{
    li.offset_to_range(span.start, span.end)
}

fn ident_strings(v: &Vec<Ident>) -> (r: Vec<String>)
    ensures
        strs(r@) == ident_names(v@),
{
    let mut r: Vec<String> = Vec::new();
    let mut i: usize = 0;
    while i < v.len()
        invariant
            i <= v@.len(),
            r@.len() == i,
            forall|k: int| 0 <= k < i ==> r@[k]@ == v@[k].name@,
        decreases v@.len() - i,
    {
        r.push(v[i].name.clone());
        i = i + 1;
    }
    assert(strs(r@) =~= ident_names(v@));
    r
}

fn opt_ident_string(o: &Option<Ident>) -> (r: Option<String>)
    ensures
        crate::symbol_table::opt_str(r) == opt_ident_name(*o),
{
    match o {
        Some(i) => Some(i.name.clone()),
        None => None,
    }
}

fn column_symbols(li: &LineIndex, td: &TableDefinition) -> (r: Vec<ColumnSymbol>)
    ensures
        r@.map_values(|c: ColumnSymbol| c@) == td.columns@.map_values(
            |c: ColumnDefinition| column_model_of(li@, td.name.name@, c),
        ),
{
    let mut r: Vec<ColumnSymbol> = Vec::new();
    let mut i: usize = 0;
    while i < td.columns.len()
        invariant
            i <= td.columns@.len(),
            r@.len() == i,
            forall|k: int| 0 <= k < i ==> r@[k]@ == column_model_of(li@, td.name.name@, td.columns@[k]),
        decreases td.columns@.len() - i,
    {
        let col = &td.columns[i];
        r.push(ColumnSymbol {
            name: col.name.name.clone(),
            range: span_to_range(li, col.name.span),
            data_type: col.data_type.clone(),
            nullable: col.nullability,
            is_identity: col.identity,
            table_name: td.name.name.clone(),
        });
        i = i + 1;
    }
    assert(r@.map_values(|c: ColumnSymbol| c@) =~= td.columns@.map_values(
        |c: ColumnDefinition| column_model_of(li@, td.name.name@, c),
    ));
    r
}

fn constraint_infos(cs: &Vec<TableConstraint>) -> (r: Vec<ConstraintInfo>)
    ensures
        r@.map_values(|c: ConstraintInfo| c@) == constraint_models(cs@),
{
    let mut r: Vec<ConstraintInfo> = Vec::new();
    let mut i: usize = 0;
    assert(cs@.take(0) =~= Seq::<TableConstraint>::empty());
    assert(r@.map_values(|c: ConstraintInfo| c@) =~= Seq::<ConstraintModel>::empty());
    while i < cs.len()
        invariant
            i <= cs@.len(),
            r@.map_values(|c: ConstraintInfo| c@) == constraint_models(cs@.take(i as int)),
        decreases cs@.len() - i,
    {
        let ghost before = r@;
        assert(cs@.take(i + 1).drop_last() =~= cs@.take(i as int));
        assert(cs@.take(i + 1).last() == cs@[i as int]);
        match &cs[i] {
            TableConstraint::PrimaryKey { name, columns } => {
                r.push(ConstraintInfo {
                    name: opt_ident_string(name),
                    kind: ConstraintKind::PrimaryKey { columns: ident_strings(columns) },
                });
            },
            TableConstraint::Foreign { name, columns, ref_table, ref_columns } => {
                r.push(ConstraintInfo {
                    name: opt_ident_string(name),
                    kind: ConstraintKind::Foreign {
                        columns: ident_strings(columns),
                        ref_table: ref_table.name.clone(),
                        ref_columns: ident_strings(ref_columns),
                    },
                });
            },
            TableConstraint::Unique { name, columns } => {
                r.push(ConstraintInfo {
                    name: opt_ident_string(name),
                    kind: ConstraintKind::Unique { columns: ident_strings(columns) },
                });
            },
            TableConstraint::Check => {},
        }
        assert(r@.map_values(|c: ConstraintInfo| c@) =~= constraint_models(cs@.take(i + 1)));
        i = i + 1;
    }
    assert(cs@.take(cs@.len() as int) =~= cs@);
    r
}

fn parameter_symbols(li: &LineIndex, ps: &Vec<ParameterDefinition>) -> (r: Vec<ParameterSymbol>)
    ensures
        r@.map_values(|x: ParameterSymbol| x@) == ps@.map_values(|p: ParameterDefinition| parameter_model_of(li@, p)),
{
    let mut r: Vec<ParameterSymbol> = Vec::new();
    let mut i: usize = 0;
    while i < ps.len()
        invariant
            i <= ps@.len(),
            r@.len() == i,
            forall|k: int| 0 <= k < i ==> r@[k]@ == parameter_model_of(li@, ps@[k]),
        decreases ps@.len() - i,
    {
        let p = &ps[i];
        r.push(ParameterSymbol {
            name: p.name.name.clone(),
            range: span_to_range(li, p.name.span),
            data_type: p.data_type.clone(),
            is_output: p.is_output,
        });
        i = i + 1;
    }
    assert(r@.map_values(|x: ParameterSymbol| x@) =~= ps@.map_values(|p: ParameterDefinition| parameter_model_of(li@, p)));
    r
}

fn variable_symbol(li: &LineIndex, v: &VariableDeclaration) -> (r: VariableSymbol)
    ensures
        r@ == variable_model_of(li@, *v),
{
    VariableSymbol { name: v.name.name.clone(), range: span_to_range(li, v.name.span), data_type: v.data_type.clone() }
}

impl SymbolTableBuilder {
    /// Append every variable declared in `stmt`, nested blocks included.
    fn collect_variables(li: &LineIndex, stmt: &Statement, variables: &mut Vec<VariableSymbol>)
        ensures
            variable_models(final(variables)@) == variable_models(old(variables)@) + statement_variables(li@, *stmt),
        decreases stmt,
    {
        let ghost v0 = variable_models(variables@);
        match stmt {
            Statement::Declare { variables: decls, .. } => {
                let mut i: usize = 0;
                while i < decls.len()
                    invariant
                        i <= decls@.len(),
                        variable_models(variables@) == v0 + decls@.take(i as int).map_values(
                            |v: VariableDeclaration| variable_model_of(li@, v),
                        ),
                    decreases decls@.len() - i,
                {
                    let ghost before = variables@;
                    variables.push(variable_symbol(li, &decls[i]));
                    assert(variable_models(variables@) =~= variable_models(before).push(variable_model_of(li@, decls@[i as int])));
                    assert(decls@.take(i + 1).map_values(|v: VariableDeclaration| variable_model_of(li@, v))
                        =~= decls@.take(i as int).map_values(|v: VariableDeclaration| variable_model_of(li@, v)).push(
                        variable_model_of(li@, decls@[i as int])));
                    i = i + 1;
                }
                assert(decls@.take(decls@.len() as int) =~= decls@);
            },
            Statement::Block(b) => {
                Self::collect_variables_in(li, &b.statements, variables);
            },
            Statement::If { then_branch, else_branch, .. } => {
                Self::collect_variables(li, then_branch, variables);
                match else_branch {
                    Some(e) => {
                        Self::collect_variables(li, e, variables);
                    },
                    None => {},
                }
            },
            Statement::While { body, .. } => {
                Self::collect_variables(li, body, variables);
            },
            Statement::TryCatch { try_block, catch_block, .. } => {
                Self::collect_variables_in(li, &try_block.statements, variables);
                Self::collect_variables_in(li, &catch_block.statements, variables);
            },
            _ => {},
        }
        assert(variable_models(variables@) =~= v0 + statement_variables(li@, *stmt));
    }

    /// Append every variable declared in a sequence of statements.
    fn collect_variables_in(li: &LineIndex, ss: &Vec<Statement>, variables: &mut Vec<VariableSymbol>)
        ensures
            variable_models(final(variables)@) == variable_models(old(variables)@) + statements_variables(li@, ss@),
        decreases ss,
    {
        let ghost v0 = variable_models(variables@);
        let mut i: usize = 0;
        assert(ss@.take(0) =~= Seq::<Statement>::empty());
        while i < ss.len()
            invariant
                i <= ss@.len(),
                variable_models(variables@) == v0 + statements_variables(li@, ss@.take(i as int)),
            decreases ss@.len() - i,
        {
            assert(ss@.take(i + 1).drop_last() =~= ss@.take(i as int));
            Self::collect_variables(li, &ss[i], variables);
            i = i + 1;
        }
        assert(ss@.take(ss@.len() as int) =~= ss@);
    }
}


impl SymbolTableBuilder {
    /// Enter the variables of a `DECLARE`, in order.
    fn collect_declare_variables(
        li: &LineIndex,
        decls: &Vec<VariableDeclaration>,
        variables: &mut SymbolMap<VariableSymbol>,
    )
        ensures
            entry_models(final(variables)@) == declare_into(li@, entry_models(old(variables)@), decls@),
    {
        let ghost v0 = entry_models(variables@);
        let mut i: usize = 0;
        assert(decls@.take(0) =~= Seq::<VariableDeclaration>::empty());
        while i < decls.len()
            invariant
                i <= decls@.len(),
                entry_models(variables@) == declare_into(li@, v0, decls@.take(i as int)),
            decreases decls@.len() - i,
        {
            assert(decls@.take(i + 1).drop_last() =~= decls@.take(i as int));
            let d = &decls[i];
            let key = CaseInsensitiveKey::new(d.name.name.as_str());
            let sym = variable_symbol(li, d);
            variables.keys_are_distinct();
            proof {
                lemma_inserted_models(variables@, key@, sym);
            }
            variables.insert(key, sym);
            i = i + 1;
        }
        assert(decls@.take(decls@.len() as int) =~= decls@);
    }

    /// Enter one definition.
    fn collect_create(li: &LineIndex, create: &CreateStatement, table: &mut SymbolTable)
        ensures
            final(table)@ == with_create(li@, old(table)@, *create),
    {
        match create {
            CreateStatement::Table(td) => {
                let key = CaseInsensitiveKey::new(td.name.name.as_str());
                let sym = TableSymbol {
                    name: td.name.name.clone(),
                    range: span_to_range(li, td.name.span),
                    columns: column_symbols(li, td),
                    constraints: constraint_infos(&td.constraints),
                    is_temporary: td.temporary,
                };
                assert(sym@ == table_model_of(li@, *td));
                table.tables.keys_are_distinct();
                proof {
                    lemma_inserted_models(table.tables@, key@, sym);
                }
                table.tables.insert(key, sym);
            },
            CreateStatement::Procedure(pd) => {
                let key = CaseInsensitiveKey::new(pd.name.name.as_str());
                let mut body_variables: Vec<VariableSymbol> = Vec::new();
                assert(variable_models(body_variables@) =~= Seq::<VariableModel>::empty());
                Self::collect_variables_in(li, &pd.body, &mut body_variables);
                let sym = ProcedureSymbol {
                    name: pd.name.name.clone(),
                    range: span_to_range(li, pd.name.span),
                    parameters: parameter_symbols(li, &pd.parameters),
                    body_variables,
                };
                assert(sym@ == procedure_model_of(li@, *pd));
                table.procedures.keys_are_distinct();
                proof {
                    lemma_inserted_models(table.procedures@, key@, sym);
                }
                table.procedures.insert(key, sym);
            },
            CreateStatement::View(vd) => {
                let key = CaseInsensitiveKey::new(vd.name.name.as_str());
                let sym = ViewSymbol { name: vd.name.name.clone(), range: span_to_range(li, vd.name.span) };
                table.views.keys_are_distinct();
                proof {
                    lemma_inserted_models(table.views@, key@, sym);
                }
                table.views.insert(key, sym);
            },
            CreateStatement::Index(idx) => {
                let key = CaseInsensitiveKey::new(idx.name.name.as_str());
                let sym = IndexSymbol {
                    name: idx.name.name.clone(),
                    range: span_to_range(li, idx.name.span),
                    table_name: idx.table.name.clone(),
                    columns: ident_strings(&idx.columns),
                    is_unique: idx.unique,
                };
                table.indexes.keys_are_distinct();
                proof {
                    lemma_inserted_models(table.indexes@, key@, sym);
                }
                table.indexes.insert(key, sym);
            },
            CreateStatement::Trigger(tr) => {
                let key = CaseInsensitiveKey::new(tr.name.name.as_str());
                let sym = TriggerSymbol {
                    name: tr.name.name.clone(),
                    range: span_to_range(li, tr.span),
                    table_name: tr.table.name.clone(),
                    events: clone_strings(&tr.events),
                };
                table.triggers.keys_are_distinct();
                proof {
                    lemma_inserted_models(table.triggers@, key@, sym);
                }
                table.triggers.insert(key, sym);
            },
        }
    }

    /// Enter the definitions and declarations of one statement, nested
    /// blocks included.
    fn collect_from_stmt(li: &LineIndex, stmt: &Statement, table: &mut SymbolTable)
        ensures
            final(table)@ == collect_statement(li@, old(table)@, *stmt),
        decreases stmt,
    {
        match stmt {
            Statement::Create(c) => {
                Self::collect_create(li, c, table);
            },
            Statement::Declare { variables, .. } => {
                Self::collect_declare_variables(li, variables, &mut table.variables);
            },
            Statement::Block(b) => {
                Self::collect_from_stmts(li, &b.statements, table);
            },
            Statement::If { then_branch, else_branch, .. } => {
                Self::collect_from_stmt(li, then_branch, table);
                match else_branch {
                    Some(e) => {
                        Self::collect_from_stmt(li, e, table);
                    },
                    None => {},
                }
            },
            Statement::While { body, .. } => {
                Self::collect_from_stmt(li, body, table);
            },
            Statement::TryCatch { try_block, catch_block, .. } => {
                Self::collect_from_stmts(li, &try_block.statements, table);
                Self::collect_from_stmts(li, &catch_block.statements, table);
            },
            _ => {},
        }
    }

    /// Enter the definitions and declarations of statements, in order.
    fn collect_from_stmts(li: &LineIndex, ss: &Vec<Statement>, table: &mut SymbolTable)
        ensures
            final(table)@ == collect_statements(li@, old(table)@, ss@),
        decreases ss,
    {
        let ghost t0 = table@;
        let mut i: usize = 0;
        assert(ss@.take(0) =~= Seq::<Statement>::empty());
        while i < ss.len()
            invariant
                i <= ss@.len(),
                table@ == collect_statements(li@, t0, ss@.take(i as int)),
            decreases ss@.len() - i,
        {
            assert(ss@.take(i + 1).drop_last() =~= ss@.take(i as int));
            Self::collect_from_stmt(li, &ss[i], table);
            i = i + 1;
        }
        assert(ss@.take(ss@.len() as int) =~= ss@);
    }

    /// The symbol table of a document: the definitions and declarations of
    /// its statements, entered in source order, with ranges computed from the
    /// source text.
    pub fn build(source: &str, statements: &Vec<Statement>) -> (t: SymbolTable)
        requires
            source.spec_bytes().len() <= u32::MAX,
        ensures
            t@ == collect_statements(line_starts(source.spec_bytes()), empty_model(), statements@),
    {
        let li = LineIndex::new(source);
        let mut table = SymbolTable::new();
        assert(table@.tables =~= empty_model().tables);
        assert(table@.procedures =~= empty_model().procedures);
        assert(table@.views =~= empty_model().views);
        assert(table@.indexes =~= empty_model().indexes);
        assert(table@.triggers =~= empty_model().triggers);
        assert(table@.variables =~= empty_model().variables);
        Self::collect_from_stmts(&li, statements, &mut table);
        table
    }
}

fn clone_strings(v: &Vec<String>) -> (r: Vec<String>)
    ensures
        strs(r@) == strs(v@),
{
    let mut r: Vec<String> = Vec::new();
    let mut i: usize = 0;
    while i < v.len()
        invariant
            i <= v@.len(),
            r@.len() == i,
            forall|k: int| 0 <= k < i ==> r@[k]@ == v@[k]@,
        decreases v@.len() - i,
    {
        r.push(v[i].clone());
        i = i + 1;
    }
    assert(strs(r@) =~= strs(v@));
    r
}


/// Index of the token at `offset`, searching from token `k` in order: the
/// first token whose span holds the offset, when it is an identifier or a
/// local variable; none when that token is of another kind, or when a token
/// starting after the offset comes first.
pub open spec fn identifier_at(ts: Seq<OwnedToken>, k: int, offset: int) -> Option<int>
    decreases ts.len() - k,
{
    if k < 0 || k >= ts.len() {
        None
    } else if ts[k].span.start <= offset && offset < ts[k].span.end {
        if ts[k].kind == TokenKind::Ident || ts[k].kind == TokenKind::LocalVar {
            Some(k)
        } else {
            None
        }
    } else if ts[k].span.start > offset {
        None
    } else {
        identifier_at(ts, k + 1, offset)
    }
}

impl SymbolTableBuilder {
    /// The identifier (or local variable) at a position of a text, given the
    /// text's tokens in order: its text and range.
    pub fn find_identifier_at(source: &str, tokens: &Vec<OwnedToken>, position: Position) -> (r: Option<(String, Range)>)
        requires
            source.spec_bytes().len() <= u32::MAX,
        ensures
            ({
                let li = line_starts(source.spec_bytes());
                match identifier_at(tokens@, 0, position_offset(li, source.spec_bytes(), position)) {
                    Some(k) => r matches Some((t, rg)) && t@ == tokens@[k].text@ && rg == span_range(
                        li,
                        tokens@[k].span,
                    ),
                    None => r is None,
                }
            }),
    {
        let line_index = LineIndex::new(source);
        let offset = line_index.position_to_offset(source, position);
        let mut k: usize = 0;
        while k < tokens.len()
            invariant
                k <= tokens@.len(),
                line_index@ == line_starts(source.spec_bytes()),
                offset == position_offset(line_index@, source.spec_bytes(), position),
                identifier_at(tokens@, 0, offset as int) == identifier_at(tokens@, k as int, offset as int),
            decreases tokens@.len() - k,
        {
            let t = &tokens[k];
            let start = t.span.start as usize;
            let end = t.span.end as usize;
            if offset >= start && offset < end {
                if matches!(t.kind, TokenKind::Ident | TokenKind::LocalVar) {
                    return Some((t.text.clone(), span_to_range(&line_index, t.span)));
                }
                return None;
            }
            if start > offset {
                return None;
            }
            k = k + 1;
        }
        None
    }
}


proof fn lemma_collect_tables_distinct(li: Seq<u32>, t: SymbolTableModel, s: Statement)
    requires
        keys_distinct(t.tables),
    ensures
        keys_distinct(collect_statement(li, t, s).tables),
    decreases s,
{
    match s {
        Statement::Create(c) => {
            match *c {
                CreateStatement::Table(td) => {
                    law_insert_then_get(t.tables, uppercase(td.name.name@), table_model_of(li, td), Seq::empty());
                },
                _ => {},
            }
        },
        Statement::Block(b) => lemma_collect_all_tables_distinct(li, t, b.statements@),
        Statement::If { then_branch, else_branch, .. } => {
            lemma_collect_tables_distinct(li, t, *then_branch);
            match else_branch {
                Some(e) => lemma_collect_tables_distinct(li, collect_statement(li, t, *then_branch), *e),
                None => {},
            }
        },
        Statement::While { body, .. } => lemma_collect_tables_distinct(li, t, *body),
        Statement::TryCatch { try_block, catch_block, .. } => {
            lemma_collect_all_tables_distinct(li, t, try_block.statements@);
            lemma_collect_all_tables_distinct(
                li,
                collect_statements(li, t, try_block.statements@),
                catch_block.statements@,
            );
        },
        _ => {},
    }
}

proof fn lemma_collect_all_tables_distinct(li: Seq<u32>, t: SymbolTableModel, ss: Seq<Statement>)
    requires
        keys_distinct(t.tables),
    ensures
        keys_distinct(collect_statements(li, t, ss).tables),
    decreases ss,
{
    if ss.len() > 0 {
        lemma_collect_all_tables_distinct(li, t, ss.drop_last());
        lemma_collect_tables_distinct(li, collect_statements(li, t, ss.drop_last()), ss.last());
    }
}

/// Of several CREATE TABLE statements for one name (in any case), the last
/// one gives the table that the symbol table holds under that name.
pub proof fn law_last_table_definition_wins(li: Seq<u32>, ss: Seq<Statement>, td: TableDefinition)
    ensures
        value_of(
            collect_statements(li, empty_model(), ss.push(Statement::Create(Box::new(CreateStatement::Table(td))))).tables,
            uppercase(td.name.name@),
        ) == Some(table_model_of(li, td)),
{
    let all = ss.push(Statement::Create(Box::new(CreateStatement::Table(td))));
    assert(all.drop_last() =~= ss);
    lemma_collect_all_tables_distinct(li, empty_model(), ss);
    let t = collect_statements(li, empty_model(), ss);
    law_insert_then_get(t.tables, uppercase(td.name.name@), table_model_of(li, td), Seq::empty());
    let c = Statement::Create(Box::new(CreateStatement::Table(td)));
    assert(all.last() == c);
    assert(collect_statements(li, empty_model(), all) == collect_statement(li, t, c));
    assert(collect_statement(li, t, c) == with_create(li, t, CreateStatement::Table(td)));
}


/// The names of a map's entries, in order.
pub open spec fn map_keys<T>(s: Seq<(Seq<char>, T)>) -> Seq<Seq<char>> {
    s.map_values(|e: (Seq<char>, T)| e.0)
}

/// Every map of `a` keeps its names, in order, as the first names of the
/// same map of `b`.
pub open spec fn keys_kept(a: SymbolTableModel, b: SymbolTableModel) -> bool {
    &&& map_keys(a.tables).is_prefix_of(map_keys(b.tables))
    &&& map_keys(a.procedures).is_prefix_of(map_keys(b.procedures))
    &&& map_keys(a.views).is_prefix_of(map_keys(b.views))
    &&& map_keys(a.indexes).is_prefix_of(map_keys(b.indexes))
    &&& map_keys(a.triggers).is_prefix_of(map_keys(b.triggers))
    &&& map_keys(a.variables).is_prefix_of(map_keys(b.variables))
}

proof fn lemma_inserted_keys<T>(s: Seq<(Seq<char>, T)>, key: Seq<char>, value: T)
    ensures
        map_keys(s).is_prefix_of(map_keys(inserted(s, key, value))),
{
    match crate::symbol_table::key_index(s, key) {
        Some(i) => {
            assert(map_keys(inserted(s, key, value)) =~= map_keys(s));
        },
        None => {
            assert(map_keys(inserted(s, key, value)).subrange(0, s.len() as int) =~= map_keys(s));
        },
    }
}

proof fn lemma_prefix_trans(a: Seq<Seq<char>>, b: Seq<Seq<char>>, c: Seq<Seq<char>>)
    requires
        a.is_prefix_of(b),
        b.is_prefix_of(c),
    ensures
        a.is_prefix_of(c),
{
    assert(c.subrange(0, a.len() as int) =~= b.subrange(0, a.len() as int));
}

proof fn lemma_keys_kept_trans(a: SymbolTableModel, b: SymbolTableModel, c: SymbolTableModel)
    requires
        keys_kept(a, b),
        keys_kept(b, c),
    ensures
        keys_kept(a, c),
{
    lemma_prefix_trans(map_keys(a.tables), map_keys(b.tables), map_keys(c.tables));
    lemma_prefix_trans(map_keys(a.procedures), map_keys(b.procedures), map_keys(c.procedures));
    lemma_prefix_trans(map_keys(a.views), map_keys(b.views), map_keys(c.views));
    lemma_prefix_trans(map_keys(a.indexes), map_keys(b.indexes), map_keys(c.indexes));
    lemma_prefix_trans(map_keys(a.triggers), map_keys(b.triggers), map_keys(c.triggers));
    lemma_prefix_trans(map_keys(a.variables), map_keys(b.variables), map_keys(c.variables));
}

proof fn lemma_keys_kept_refl(a: SymbolTableModel)
    ensures
        keys_kept(a, a),
{
    assert(map_keys(a.tables).subrange(0, a.tables.len() as int) =~= map_keys(a.tables));
    assert(map_keys(a.procedures).subrange(0, a.procedures.len() as int) =~= map_keys(a.procedures));
    assert(map_keys(a.views).subrange(0, a.views.len() as int) =~= map_keys(a.views));
    assert(map_keys(a.indexes).subrange(0, a.indexes.len() as int) =~= map_keys(a.indexes));
    assert(map_keys(a.triggers).subrange(0, a.triggers.len() as int) =~= map_keys(a.triggers));
    assert(map_keys(a.variables).subrange(0, a.variables.len() as int) =~= map_keys(a.variables));
}

proof fn lemma_declare_keys(li: Seq<u32>, vars: Seq<(Seq<char>, VariableModel)>, ds: Seq<VariableDeclaration>)
    ensures
        map_keys(vars).is_prefix_of(map_keys(declare_into(li, vars, ds))),
    decreases ds.len(),
{
    if ds.len() == 0 {
        assert(map_keys(vars).subrange(0, vars.len() as int) =~= map_keys(vars));
    } else {
        let prev = declare_into(li, vars, ds.drop_last());
        lemma_declare_keys(li, vars, ds.drop_last());
        lemma_inserted_keys(prev, uppercase(ds.last().name.name@), variable_model_of(li, ds.last()));
        lemma_prefix_trans(map_keys(vars), map_keys(prev), map_keys(declare_into(li, vars, ds)));
    }
}

/// Walking a statement never loses a name: every map of the symbol table
/// keeps its names, in order, and a new name is added after them (a
/// definition under a known name replaces its value in place).
pub proof fn law_collect_keeps_names(li: Seq<u32>, t: SymbolTableModel, s: Statement)
    ensures
        keys_kept(t, collect_statement(li, t, s)),
    decreases s,
{
    lemma_keys_kept_refl(t);
    match s {
        Statement::Create(c) => {
            match *c {
                CreateStatement::Table(td) => lemma_inserted_keys(t.tables, uppercase(td.name.name@), table_model_of(li, td)),
                CreateStatement::Procedure(pd) => lemma_inserted_keys(
                    t.procedures,
                    uppercase(pd.name.name@),
                    procedure_model_of(li, pd),
                ),
                CreateStatement::View(vd) => lemma_inserted_keys(
                    t.views,
                    uppercase(vd.name.name@),
                    ViewModel { name: vd.name.name@, range: span_range(li, vd.name.span) },
                ),
                CreateStatement::Index(idx) => lemma_inserted_keys(
                    t.indexes,
                    uppercase(idx.name.name@),
                    IndexModel {
                        name: idx.name.name@,
                        range: span_range(li, idx.name.span),
                        table_name: idx.table.name@,
                        columns: ident_names(idx.columns@),
                        is_unique: idx.unique,
                    },
                ),
                CreateStatement::Trigger(tr) => lemma_inserted_keys(
                    t.triggers,
                    uppercase(tr.name.name@),
                    TriggerModel {
                        name: tr.name.name@,
                        range: span_range(li, tr.span),
                        table_name: tr.table.name@,
                        events: strs(tr.events@),
                    },
                ),
            }
        },
        Statement::Declare { variables, .. } => {
            lemma_declare_keys(li, t.variables, variables@);
        },
        Statement::Block(b) => {
            law_collect_all_keeps_names(li, t, b.statements@);
        },
        Statement::If { then_branch, else_branch, .. } => {
            let t1 = collect_statement(li, t, *then_branch);
            law_collect_keeps_names(li, t, *then_branch);
            match else_branch {
                Some(e) => {
                    law_collect_keeps_names(li, t1, *e);
                    lemma_keys_kept_trans(t, t1, collect_statement(li, t1, *e));
                },
                None => {},
            }
        },
        Statement::While { body, .. } => {
            law_collect_keeps_names(li, t, *body);
        },
        Statement::TryCatch { try_block, catch_block, .. } => {
            let t1 = collect_statements(li, t, try_block.statements@);
            law_collect_all_keeps_names(li, t, try_block.statements@);
            law_collect_all_keeps_names(li, t1, catch_block.statements@);
            lemma_keys_kept_trans(t, t1, collect_statements(li, t1, catch_block.statements@));
        },
        _ => {},
    }
}

/// Walking statements in order never loses a name (see
/// [`law_collect_keeps_names`]).
pub proof fn law_collect_all_keeps_names(li: Seq<u32>, t: SymbolTableModel, ss: Seq<Statement>)
    ensures
        keys_kept(t, collect_statements(li, t, ss)),
    decreases ss,
{
    if ss.len() == 0 {
        lemma_keys_kept_refl(t);
    } else {
        let t1 = collect_statements(li, t, ss.drop_last());
        law_collect_all_keeps_names(li, t, ss.drop_last());
        law_collect_keeps_names(li, t1, ss.last());
        lemma_keys_kept_trans(t, t1, collect_statements(li, t, ss));
    }
}
} // verus!
