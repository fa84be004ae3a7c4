//! Hover: documentation and schema information for the token under the
//! cursor, as Markdown.

use crate::analysis::{covering_token, token_covers, tokens_sorted, DocumentAnalysis};
use crate::line_index::{position_offset, range_at};
use crate::position::{Position, Range};
use crate::completion::{decimal, push_decimal};
use crate::db_docs::{lookup, spec_lookup};
use crate::symbol_table::{
    entry_models, uppercase, value_of, ColumnModel, ColumnSymbol, IndexModel, ParameterModel,
    ProcedureModel, SymbolTable, SymbolTableBuilder, TableModel, TriggerModel, VariableModel,
    strs, to_uppercase,
};
use crate::text::{eq_ignore_ascii, eq_ignore_ascii_case};
use crate::ast::{CreateStatement, Join, Statement, TableReference};
use crate::token::{OwnedToken, TokenKind};
use vstd::prelude::*;
use vstd::string::*;
use vstd::utf8::*;

verus! {

/// ` NULL`, ` NOT NULL` or nothing, after a declared nullability.
pub open spec fn nullable_text(n: Option<bool>) -> Seq<char> {
    match n {
        Some(true) => " NULL"@,
        Some(false) => " NOT NULL"@,
        None => Seq::empty(),
    }
}

/// ` IDENTITY` for an identity column.
pub open spec fn identity_text(b: bool) -> Seq<char> {
    if b { " IDENTITY"@ } else { Seq::empty() }
}

/// ` OUTPUT` for an output parameter.
pub open spec fn output_text(b: bool) -> Seq<char> {
    if b { " OUTPUT"@ } else { Seq::empty() }
}

/// `s` unless the count is one.
pub open spec fn plural(n: nat) -> Seq<char> {
    if n != 1 { "s"@ } else { Seq::empty() }
}

/// Texts joined with a separator.
pub open spec fn join_texts(v: Seq<Seq<char>>, sep: Seq<char>) -> Seq<char>
    decreases v.len(),
{
    if v.len() == 0 {
        Seq::empty()
    } else if v.len() == 1 {
        v[0]
    } else {
        join_texts(v.drop_last(), sep) + sep + v.last()
    }
}

/// Hover of a column of table `table`.
pub open spec fn column_hover_text(c: ColumnModel, table: Seq<char>) -> Seq<char> {
    "```tsql\n"@ + c.name + " "@ + c.data_type + nullable_text(c.nullable) + identity_text(c.is_identity)
        + "\n```\n\n**Column** of `"@ + table + "`"@
}

/// One column line of a table hover.
pub open spec fn column_line(c: ColumnModel) -> Seq<char> {
    "\n  `"@ + c.name + " "@ + c.data_type + "`"@ + nullable_text(c.nullable) + identity_text(c.is_identity)
}

/// The column lines of a table hover.
pub open spec fn column_lines(cs: Seq<ColumnModel>) -> Seq<char>
    decreases cs.len(),
{
    if cs.len() == 0 {
        Seq::empty()
    } else {
        column_lines(cs.drop_last()) + column_line(cs.last())
    }
}

/// One parameter line of a procedure hover.
pub open spec fn parameter_line(p: ParameterModel) -> Seq<char> {
    "\n  `"@ + p.name + " "@ + p.data_type + output_text(p.is_output) + "`"@
}

/// The parameter lines of a procedure hover.
pub open spec fn parameter_lines(ps: Seq<ParameterModel>) -> Seq<char>
    decreases ps.len(),
{
    if ps.len() == 0 {
        Seq::empty()
    } else {
        parameter_lines(ps.drop_last()) + parameter_line(ps.last())
    }
}

/// Hover of a table.
pub open spec fn table_hover_text(t: TableModel) -> Seq<char> {
    "```tsql\nCREATE TABLE "@ + t.name + " ("@ + column_lines(t.columns) + "\n)\n```\n\n**Table** \u{2014} "@
        + decimal(t.columns.len()) + " column"@ + plural(t.columns.len())
}

/// Hover of a procedure.
pub open spec fn procedure_hover_text(p: ProcedureModel) -> Seq<char> {
    "```tsql\nCREATE PROCEDURE "@ + p.name + " ("@ + parameter_lines(p.parameters)
        + "\n)\n```\n\n**Procedure** \u{2014} "@ + decimal(p.parameters.len()) + " parameter"@
        + plural(p.parameters.len())
}

/// Whether `w` occurs in `s` as a contiguous piece.
pub open spec fn occurs_in(w: Seq<char>, s: Seq<char>) -> bool {
    exists|k: int| 0 <= k && k + w.len() <= s.len() && #[trigger] s.subrange(k, k + w.len()) == w
}

proof fn lemma_parameter_lines_split(ps: Seq<ParameterModel>, i: int)
    requires
        0 <= i < ps.len(),
    ensures
        parameter_lines(ps) == parameter_lines(ps.take(i)) + parameter_line(ps[i]) + parameter_lines(ps.skip(i + 1)),
    decreases ps.len(),
{
    if i == ps.len() - 1 {
        assert(ps.take(i) =~= ps.drop_last());
        assert(ps.skip(i + 1) =~= Seq::<ParameterModel>::empty());
        assert(parameter_lines(ps) =~= parameter_lines(ps.take(i)) + parameter_line(ps[i])
            + parameter_lines(ps.skip(i + 1)));
    } else {
        let q = ps.drop_last();
        lemma_parameter_lines_split(q, i);
        assert(q.take(i) =~= ps.take(i));
        assert(q[i] == ps[i]);
        let r = ps.skip(i + 1);
        assert(r.len() > 0);
        assert(r.drop_last() =~= q.skip(i + 1));
        assert(r.last() == ps.last());
        assert(parameter_lines(r) == parameter_lines(r.drop_last()) + parameter_line(r.last()));
        assert(parameter_lines(ps) =~= parameter_lines(ps.take(i)) + parameter_line(ps[i])
            + parameter_lines(ps.skip(i + 1)));
    }
}

/// A procedure's hover lists each parameter on a line of its own as its
/// name, a space and its data type, followed by ` OUTPUT` exactly for an
/// output parameter, between backquotes.
pub proof fn law_procedure_hover_lists_parameters(p: ProcedureModel, i: int)
    requires
        0 <= i < p.parameters.len(),
    ensures
        occurs_in(
            "\n  `"@ + p.parameters[i].name + " "@ + p.parameters[i].data_type + (if p.parameters[i].is_output {
                " OUTPUT"@
            } else {
                Seq::empty()
            }) + "`"@,
            procedure_hover_text(p),
        ),
{
    let ps = p.parameters;
    lemma_parameter_lines_split(ps, i);
    let x = "```tsql\nCREATE PROCEDURE "@ + p.name + " ("@;
    let y1 = "\n)\n```\n\n**Procedure** \u{2014} "@;
    let y2 = decimal(ps.len());
    let y3 = " parameter"@;
    let y4 = plural(ps.len());
    let pre = parameter_lines(ps.take(i));
    let w = parameter_line(ps[i]);
    let post = parameter_lines(ps.skip(i + 1));
    let s = procedure_hover_text(p);
    assert(s == x + parameter_lines(ps) + y1 + y2 + y3 + y4);
    let rest = post + y1 + y2 + y3 + y4;
    assert(s =~= (x + pre) + w + rest);
    lemma_occurs_between(x + pre, w, rest);
    let w2 = "\n  `"@ + ps[i].name + " "@ + ps[i].data_type + (if ps[i].is_output {
        " OUTPUT"@
    } else {
        Seq::empty()
    }) + "`"@;
    assert(w2 =~= w);
}

proof fn lemma_column_lines_split(cs: Seq<ColumnModel>, i: int)
    requires
        0 <= i < cs.len(),
    ensures
        column_lines(cs) == column_lines(cs.take(i)) + column_line(cs[i]) + column_lines(cs.skip(i + 1)),
    decreases cs.len(),
{
    if i == cs.len() - 1 {
        assert(cs.take(i) =~= cs.drop_last());
        assert(cs.skip(i + 1) =~= Seq::<ColumnModel>::empty());
        assert(column_lines(cs) =~= column_lines(cs.take(i)) + column_line(cs[i]) + column_lines(cs.skip(i + 1)));
    } else {
        let q = cs.drop_last();
        lemma_column_lines_split(q, i);
        assert(q.take(i) =~= cs.take(i));
        assert(q[i] == cs[i]);
        let r = cs.skip(i + 1);
        assert(r.drop_last() =~= q.skip(i + 1));
        assert(r.last() == cs.last());
        assert(column_lines(r) == column_lines(r.drop_last()) + column_line(r.last()));
        assert(column_lines(cs) =~= column_lines(cs.take(i)) + column_line(cs[i]) + column_lines(cs.skip(i + 1)));
    }
}

/// A table's hover lists each column on a line of its own as its name, a
/// space and its data type between backquotes, then ` NULL` or ` NOT NULL`
/// as declared and ` IDENTITY` for an identity column.
pub proof fn law_table_hover_lists_columns(t: TableModel, i: int)
    requires
        0 <= i < t.columns.len(),
    ensures
        occurs_in(
            "\n  `"@ + t.columns[i].name + " "@ + t.columns[i].data_type + "`"@ + (match t.columns[i].nullable {
                Some(true) => " NULL"@,
                Some(false) => " NOT NULL"@,
                None => Seq::empty(),
            }) + (if t.columns[i].is_identity {
                " IDENTITY"@
            } else {
                Seq::empty()
            }),
            table_hover_text(t),
        ),
{
    let cs = t.columns;
    lemma_column_lines_split(cs, i);
    let x = "```tsql\nCREATE TABLE "@ + t.name + " ("@;
    let y1 = "\n)\n```\n\n**Table** \u{2014} "@;
    let y2 = decimal(cs.len());
    let y3 = " column"@;
    let y4 = plural(cs.len());
    let pre = column_lines(cs.take(i));
    let w = column_line(cs[i]);
    let post = column_lines(cs.skip(i + 1));
    let s = table_hover_text(t);
    assert(s == x + column_lines(cs) + y1 + y2 + y3 + y4);
    let rest = post + y1 + y2 + y3 + y4;
    assert(s =~= (x + pre) + w + rest);
    lemma_occurs_between(x + pre, w, rest);
}

proof fn lemma_occurs_between(a: Seq<char>, w: Seq<char>, b: Seq<char>)
    ensures
        occurs_in(w, a + w + b),
{
    let s = a + w + b;
    let k = a.len() as int;
    assert(s.subrange(k, k + w.len()) =~= w);
}

/// Hover of a view named as written in `text`.
pub open spec fn view_hover_text(text: Seq<char>) -> Seq<char> {
    "**`"@ + text + "`** \u{2014} View"@
}

/// Hover of an index.
pub open spec fn index_hover_text(i: IndexModel) -> Seq<char> {
    "```tsql\n"@ + (if i.is_unique { "UNIQUE "@ } else { Seq::empty() }) + "INDEX "@ + i.name + " ON "@
        + i.table_name + " ("@ + join_texts(i.columns, ", "@) + ")\n```\n\n**Index** \u{2014} "@
        + decimal(i.columns.len()) + " column"@ + plural(i.columns.len()) + " on `"@ + i.table_name + "`"@
}

/// Hover of a trigger.
pub open spec fn trigger_hover_text(t: TriggerModel) -> Seq<char> {
    "```tsql\nCREATE TRIGGER "@ + t.name + " ON "@ + t.table_name + " FOR "@ + join_texts(t.events, ", "@)
        + "\n```\n\n**Trigger** \u{2014} on `"@ + t.table_name + "`"@
}

/// Hover of a top-level variable written `text`.
pub open spec fn variable_hover_text(text: Seq<char>, v: VariableModel) -> Seq<char> {
    "```tsql\n"@ + text + ": "@ + v.data_type + "\n```\n\n**Variable** \u{2014} Declared with `DECLARE "@
        + v.name + " "@ + v.data_type + "`"@
}

/// Hover of a variable declared in the body of procedure `proc`.
pub open spec fn body_variable_hover_text(text: Seq<char>, v: VariableModel, proc: Seq<char>) -> Seq<char> {
    "```tsql\n"@ + text + ": "@ + v.data_type + "\n```\n\n**Variable** in `"@ + proc + "` \u{2014} `DECLARE "@
        + v.name + " "@ + v.data_type + "`"@
}

/// Hover of a parameter of procedure `proc`.
pub open spec fn parameter_hover_text(text: Seq<char>, p: ParameterModel, proc: Seq<char>) -> Seq<char> {
    "```tsql\n"@ + text + ": "@ + p.data_type + output_text(p.is_output) + "\n```\n\n**Parameter** of `"@
        + proc + "`"@
}

fn push_nullable(s: &mut String, n: Option<bool>)
    ensures
        final(s)@ == old(s)@ + nullable_text(n),
{
    match n {
        Some(true) => s.append(" NULL"),
        Some(false) => s.append(" NOT NULL"),
        None => {
            assert(s@ =~= old(s)@ + nullable_text(n));
        },
    }
}

fn push_identity(s: &mut String, b: bool)
    ensures
        final(s)@ == old(s)@ + identity_text(b),
{
    if b {
        s.append(" IDENTITY");
    } else {
        assert(s@ =~= old(s)@ + identity_text(b));
    }
}

fn push_output(s: &mut String, b: bool)
    ensures
        final(s)@ == old(s)@ + output_text(b),
{
    if b {
        s.append(" OUTPUT");
    } else {
        assert(s@ =~= old(s)@ + output_text(b));
    }
}

fn push_plural(s: &mut String, n: usize)
    ensures
        final(s)@ == old(s)@ + plural(n as nat),
{
    if n != 1 {
        s.append("s");
    } else {
        assert(s@ =~= old(s)@ + plural(n as nat));
    }
}

fn push_joined(s: &mut String, v: &Vec<String>)
    ensures
        final(s)@ == old(s)@ + join_texts(strs(v@), ", "@),
{
    let ghost s0 = s@;
    let mut i: usize = 0;
    assert(strs(v@).take(0) =~= Seq::<Seq<char>>::empty());
    assert(s@ =~= s0 + join_texts(strs(v@).take(0), ", "@));
    while i < v.len()
        invariant
            i <= v@.len(),
            s@ == s0 + join_texts(strs(v@).take(i as int), ", "@),
        decreases v@.len() - i,
    {
        let ghost t = strs(v@).take(i + 1);
        assert(t.drop_last() =~= strs(v@).take(i as int));
        assert(t.last() == v@[i as int]@);
        if i > 0 {
            s.append(", ");
        }
        s.append(v[i].as_str());
        proof {
            if i == 0 {
                assert(s@ =~= s0 + join_texts(t, ", "@));
            } else {
                assert(s@ =~= s0 + join_texts(t, ", "@));
            }
        }
        i = i + 1;
    }
    assert(strs(v@).take(v@.len() as int) =~= strs(v@));
}

/// Hover of a column of the table named `table_name`.
pub fn format_column_hover(col: &ColumnSymbol, table_name: &str) -> (r: String)
    ensures
        r@ == column_hover_text(col@, table_name@),
{
    let mut s = String::from_str("```tsql\n");
    s.append(col.name.as_str());
    s.append(" ");
    s.append(col.data_type.as_str());
    push_nullable(&mut s, col.nullable);
    push_identity(&mut s, col.is_identity);
    s.append("\n```\n\n**Column** of `");
    s.append(table_name);
    s.append("`");
    assert(s@ =~= column_hover_text(col@, table_name@));
    s
}

fn table_hover(t: &crate::symbol_table::TableSymbol) -> (r: String)
    ensures
        r@ == table_hover_text(t@),
{
    let mut s = String::from_str("```tsql\nCREATE TABLE ");
    s.append(t.name.as_str());
    s.append(" (");
    let ghost s0 = s@;
    let ghost cs = t@.columns;
    let mut i: usize = 0;
    assert(cs.take(0) =~= Seq::<ColumnModel>::empty());
    assert(s@ =~= s0 + column_lines(cs.take(0)));
    while i < t.columns.len()
        invariant
            i <= t.columns@.len(),
            cs == t@.columns,
            s@ == s0 + column_lines(cs.take(i as int)),
        decreases t.columns@.len() - i,
    {
        let col = &t.columns[i];
        assert(cs.take(i + 1).drop_last() =~= cs.take(i as int));
        assert(cs.take(i + 1).last() == col@);
        s.append("\n  `");
        s.append(col.name.as_str());
        s.append(" ");
        s.append(col.data_type.as_str());
        s.append("`");
        push_nullable(&mut s, col.nullable);
        push_identity(&mut s, col.is_identity);
        assert(s@ =~= s0 + column_lines(cs.take(i + 1)));
        i = i + 1;
    }
    assert(cs.take(cs.len() as int) =~= cs);
    s.append("\n)\n```\n\n**Table** \u{2014} ");
    push_decimal(&mut s, t.columns.len());
    s.append(" column");
    push_plural(&mut s, t.columns.len());
    assert(s@ =~= table_hover_text(t@));
    s
}

fn procedure_hover(p: &crate::symbol_table::ProcedureSymbol) -> (r: String)
    ensures
        r@ == procedure_hover_text(p@),
{
    let mut s = String::from_str("```tsql\nCREATE PROCEDURE ");
    s.append(p.name.as_str());
    s.append(" (");
    let ghost s0 = s@;
    let ghost ps = p@.parameters;
    let mut i: usize = 0;
    assert(ps.take(0) =~= Seq::<ParameterModel>::empty());
    assert(s@ =~= s0 + parameter_lines(ps.take(0)));
    while i < p.parameters.len()
        invariant
            i <= p.parameters@.len(),
            ps == p@.parameters,
            s@ == s0 + parameter_lines(ps.take(i as int)),
        decreases p.parameters@.len() - i,
    {
        let q = &p.parameters[i];
        assert(ps.take(i + 1).drop_last() =~= ps.take(i as int));
        assert(ps.take(i + 1).last() == q@);
        s.append("\n  `");
        s.append(q.name.as_str());
        s.append(" ");
        s.append(q.data_type.as_str());
        push_output(&mut s, q.is_output);
        s.append("`");
        assert(s@ =~= s0 + parameter_lines(ps.take(i + 1)));
        i = i + 1;
    }
    assert(ps.take(ps.len() as int) =~= ps);
    s.append("\n)\n```\n\n**Procedure** \u{2014} ");
    push_decimal(&mut s, p.parameters.len());
    s.append(" parameter");
    push_plural(&mut s, p.parameters.len());
    assert(s@ =~= procedure_hover_text(p@));
    s
}

fn index_hover(i: &crate::symbol_table::IndexSymbol) -> (r: String)
    ensures
        r@ == index_hover_text(i@),
{
    let mut s = String::from_str("```tsql\n");
    if i.is_unique {
        s.append("UNIQUE ");
    }
    s.append("INDEX ");
    s.append(i.name.as_str());
    s.append(" ON ");
    s.append(i.table_name.as_str());
    s.append(" (");
    push_joined(&mut s, &i.columns);
    s.append(")\n```\n\n**Index** \u{2014} ");
    push_decimal(&mut s, i.columns.len());
    s.append(" column");
    push_plural(&mut s, i.columns.len());
    s.append(" on `");
    s.append(i.table_name.as_str());
    s.append("`");
    assert(s@ =~= index_hover_text(i@));
    s
}

fn trigger_hover(t: &crate::symbol_table::TriggerSymbol) -> (r: String)
    ensures
        r@ == trigger_hover_text(t@),
{
    let mut s = String::from_str("```tsql\nCREATE TRIGGER ");
    s.append(t.name.as_str());
    s.append(" ON ");
    s.append(t.table_name.as_str());
    s.append(" FOR ");
    push_joined(&mut s, &t.events);
    s.append("\n```\n\n**Trigger** \u{2014} on `");
    s.append(t.table_name.as_str());
    s.append("`");
    assert(s@ =~= trigger_hover_text(t@));
    s
}

/// Index of the first variable whose name equals `text`, ASCII letters
/// compared case-insensitively.
pub open spec fn first_var_named(vs: Seq<VariableModel>, text: Seq<char>) -> Option<int>
    decreases vs.len(),
{
    if vs.len() == 0 {
        None
    } else {
        match first_var_named(vs.drop_last(), text) {
            Some(i) => Some(i),
            None => if eq_ignore_ascii(vs.last().name, text) {
                Some(vs.len() - 1)
            } else {
                None
            },
        }
    }
}

/// Index of the first parameter whose name equals `text`, ASCII letters
/// compared case-insensitively.
pub open spec fn first_param_named(ps: Seq<ParameterModel>, text: Seq<char>) -> Option<int>
    decreases ps.len(),
{
    if ps.len() == 0 {
        None
    } else {
        match first_param_named(ps.drop_last(), text) {
            Some(i) => Some(i),
            None => if eq_ignore_ascii(ps.last().name, text) {
                Some(ps.len() - 1)
            } else {
                None
            },
        }
    }
}

/// Hover of a variable written `text` inside procedure `p`: a body variable
/// of that name, else a parameter of that name.
pub open spec fn procedure_variable_hover(p: ProcedureModel, text: Seq<char>) -> Option<Seq<char>> {
    match first_var_named(p.body_variables, text) {
        Some(i) => Some(body_variable_hover_text(text, p.body_variables[i], p.name)),
        None => match first_param_named(p.parameters, text) {
            Some(i) => Some(parameter_hover_text(text, p.parameters[i], p.name)),
            None => None,
        },
    }
}

/// Hover of a variable written `text` in the first procedure that declares
/// it (as a body variable or a parameter).
pub open spec fn procedures_variable_hover(ps: Seq<(Seq<char>, ProcedureModel)>, text: Seq<char>) -> Option<Seq<char>>
    decreases ps.len(),
{
    if ps.len() == 0 {
        None
    } else {
        match procedures_variable_hover(ps.drop_last(), text) {
            Some(h) => Some(h),
            None => procedure_variable_hover(ps.last().1, text),
        }
    }
}

/// Schema hover of a token: for a variable, its declaration (top level, then
/// procedure bodies and parameters); for an identifier, the table,
/// procedure, view, index or trigger of that name, in that order.
pub open spec fn schema_hover(t: &SymbolTable, kind: TokenKind, text: Seq<char>) -> Option<Seq<char>> {
    let k = uppercase(text);
    match kind {
        TokenKind::LocalVar => match value_of(t.variables@, uppercase(crate::symbol_table::variable_lookup_name(text))) {
            Some(v) => Some(variable_hover_text(text, v@)),
            None => procedures_variable_hover(t@.procedures, text),
        },
        TokenKind::Ident => match value_of(t.tables@, k) {
            Some(x) => Some(table_hover_text(x@)),
            None => match value_of(t.procedures@, k) {
                Some(x) => Some(procedure_hover_text(x@)),
                None => match value_of(t.views@, k) {
                    Some(_) => Some(view_hover_text(text)),
                    None => match value_of(t.indexes@, k) {
                        Some(x) => Some(index_hover_text(x@)),
                        None => match value_of(t.triggers@, k) {
                            Some(x) => Some(trigger_hover_text(x@)),
                            None => None,
                        },
                    },
                },
            },
        },
        _ => None,
    }
}

fn procedure_variable_hover_exec(p: &crate::symbol_table::ProcedureSymbol, text: &str) -> (r: Option<String>)
    ensures
        match r {
            Some(h) => procedure_variable_hover(p@, text@) == Some(h@),
            None => procedure_variable_hover(p@, text@) is None,
        },
{
    let ghost vs = p@.body_variables;
    let mut i: usize = 0;
    assert(vs.take(0) =~= Seq::<VariableModel>::empty());
    while i < p.body_variables.len()
        invariant
            i <= p.body_variables@.len(),
            vs == p@.body_variables,
            first_var_named(vs.take(i as int), text@) is None,
        decreases p.body_variables@.len() - i,
    {
        let v = &p.body_variables[i];
        assert(vs.take(i + 1).drop_last() =~= vs.take(i as int));
        assert(vs.take(i + 1).last() == v@);
        if eq_ignore_ascii_case(v.name.as_str(), text) {
            proof {
                lemma_first_var_prefix(vs, i + 1, text@);
            }
            let mut s = String::from_str("```tsql\n");
            s.append(text);
            s.append(": ");
            s.append(v.data_type.as_str());
            s.append("\n```\n\n**Variable** in `");
            s.append(p.name.as_str());
            s.append("` \u{2014} `DECLARE ");
            s.append(v.name.as_str());
            s.append(" ");
            s.append(v.data_type.as_str());
            s.append("`");
            assert(s@ =~= body_variable_hover_text(text@, v@, p@.name));
            return Some(s);
        }
        i = i + 1;
    }
    assert(vs.take(vs.len() as int) =~= vs);
    let ghost ps = p@.parameters;
    let mut j: usize = 0;
    assert(ps.take(0) =~= Seq::<ParameterModel>::empty());
    while j < p.parameters.len()
        invariant
            j <= p.parameters@.len(),
            ps == p@.parameters,
            first_var_named(vs, text@) is None,
            vs == p@.body_variables,
            first_param_named(ps.take(j as int), text@) is None,
        decreases p.parameters@.len() - j,
    {
        let q = &p.parameters[j];
        assert(ps.take(j + 1).drop_last() =~= ps.take(j as int));
        assert(ps.take(j + 1).last() == q@);
        if eq_ignore_ascii_case(q.name.as_str(), text) {
            proof {
                lemma_first_param_prefix(ps, j + 1, text@);
            }
            let mut s = String::from_str("```tsql\n");
            s.append(text);
            s.append(": ");
            s.append(q.data_type.as_str());
            push_output(&mut s, q.is_output);
            s.append("\n```\n\n**Parameter** of `");
            s.append(p.name.as_str());
            s.append("`");
            assert(s@ =~= parameter_hover_text(text@, q@, p@.name));
            return Some(s);
        }
        j = j + 1;
    }
    assert(ps.take(ps.len() as int) =~= ps);
    None
}

proof fn lemma_first_var_prefix(s: Seq<VariableModel>, n: int, text: Seq<char>)
    requires
        0 <= n <= s.len(),
        first_var_named(s.take(n), text) is Some,
    ensures
        first_var_named(s, text) == first_var_named(s.take(n), text),
    decreases s.len() - n,
{
    if n < s.len() {
        assert(s.take(n + 1).drop_last() =~= s.take(n));
        lemma_first_var_prefix(s, n + 1, text);
    } else {
        assert(s.take(n) =~= s);
    }
}

proof fn lemma_first_param_prefix(s: Seq<ParameterModel>, n: int, text: Seq<char>)
    requires
        0 <= n <= s.len(),
        first_param_named(s.take(n), text) is Some,
    ensures
        first_param_named(s, text) == first_param_named(s.take(n), text),
    decreases s.len() - n,
{
    if n < s.len() {
        assert(s.take(n + 1).drop_last() =~= s.take(n));
        lemma_first_param_prefix(s, n + 1, text);
    } else {
        assert(s.take(n) =~= s);
    }
}

proof fn lemma_procedures_hover_prefix(s: Seq<(Seq<char>, ProcedureModel)>, n: int, text: Seq<char>)
    requires
        0 <= n <= s.len(),
        procedures_variable_hover(s.take(n), text) is Some,
    ensures
        procedures_variable_hover(s, text) == procedures_variable_hover(s.take(n), text),
    decreases s.len() - n,
{
    if n < s.len() {
        assert(s.take(n + 1).drop_last() =~= s.take(n));
        lemma_procedures_hover_prefix(s, n + 1, text);
    } else {
        assert(s.take(n) =~= s);
    }
}

/// Schema hover of a token (see [`schema_hover`]).
pub fn build_schema_hover(symbol_table: &SymbolTable, kind: TokenKind, text: &str) -> (r: Option<String>)
    ensures
        match r {
            Some(h) => schema_hover(symbol_table, kind, text@) == Some(h@),
            None => schema_hover(symbol_table, kind, text@) is None,
        },
{
    match kind {
        TokenKind::LocalVar => {
            match SymbolTableBuilder::find_variable(symbol_table, text) {
                Some(var) => {
                    let mut s = String::from_str("```tsql\n");
                    s.append(text);
                    s.append(": ");
                    s.append(var.data_type.as_str());
                    s.append("\n```\n\n**Variable** \u{2014} Declared with `DECLARE ");
                    s.append(var.name.as_str());
                    s.append(" ");
                    s.append(var.data_type.as_str());
                    s.append("`");
                    assert(s@ =~= variable_hover_text(text@, var@));
                    return Some(s);
                },
                None => {},
            }
            let ghost ps = symbol_table@.procedures;
            let mut i: usize = 0;
            assert(ps.take(0) =~= Seq::<(Seq<char>, ProcedureModel)>::empty());
            while i < symbol_table.procedures.len()
                invariant
                    i <= symbol_table.procedures@.len(),
                    ps == entry_models(symbol_table.procedures@),
                    kind == TokenKind::LocalVar,
                    procedures_variable_hover(ps.take(i as int), text@) is None,
                    value_of(symbol_table.variables@, uppercase(crate::symbol_table::variable_lookup_name(text@))) is None,
                decreases symbol_table.procedures@.len() - i,
            {
                let (_, proc) = symbol_table.procedures.entry_at(i);
                assert(ps.take(i + 1).drop_last() =~= ps.take(i as int));
                assert(ps.take(i + 1).last().1 == proc@);
                match procedure_variable_hover_exec(proc, text) {
                    Some(h) => {
                        proof {
                            lemma_procedures_hover_prefix(ps, i + 1, text@);
                        }
                        return Some(h);
                    },
                    None => {},
                }
                i = i + 1;
            }
            assert(ps.take(ps.len() as int) =~= ps);
            None
        },
        TokenKind::Ident => {
            match SymbolTableBuilder::find_table(symbol_table, text) {
                Some(t) => return Some(table_hover(t)),
                None => {},
            }
            match SymbolTableBuilder::find_procedure(symbol_table, text) {
                Some(p) => return Some(procedure_hover(p)),
                None => {},
            }
            match SymbolTableBuilder::find_view(symbol_table, text) {
                Some(_) => {
                    let mut s = String::from_str("**`");
                    s.append(text);
                    s.append("`** \u{2014} View");
                    assert(s@ =~= view_hover_text(text@));
                    return Some(s);
                },
                None => {},
            }
            match SymbolTableBuilder::find_index(symbol_table, text) {
                Some(x) => return Some(index_hover(x)),
                None => {},
            }
            match SymbolTableBuilder::find_trigger(symbol_table, text) {
                Some(x) => return Some(trigger_hover(x)),
                None => {},
            }
            None
        },
        _ => None,
    }
}

/// Documentation hover of a token: a local variable's generic note; else
/// the entry named by the upper-cased text (keywords, data types and system
/// variables before functions); else, for a keyword, a generic note.
pub open spec fn doc_hover(kind: TokenKind, text: Seq<char>) -> Option<Seq<char>> {
    let upper = uppercase(text);
    if kind == TokenKind::LocalVar {
        Some("```tsql\n"@ + text + ": VARIABLE\n```\n\nLocal variable \u{2014} Declare with `DECLARE "@ + text
            + " TYPE`"@)
    } else {
        match spec_lookup(upper) {
            Some(e) => Some("```tsql\n"@ + e.syntax + "\n```\n\n**`"@ + upper + "`** \u{2014} "@ + e.description),
            None => if kind.is_keyword() {
                Some("**`"@ + upper + "`** \u{2014} T-SQL Keyword"@)
            } else {
                None
            },
        }
    }
}

/// Documentation hover of a token (see [`doc_hover`]).
pub fn build_hover_content(kind: TokenKind, text: &str) -> (r: Option<String>)
    ensures
        match r {
            Some(h) => doc_hover(kind, text@) == Some(h@),
            None => doc_hover(kind, text@) is None,
        },
{
    let upper = to_uppercase(text);
    if matches!(kind, TokenKind::LocalVar) {
        let mut s = String::from_str("```tsql\n");
        s.append(text);
        s.append(": VARIABLE\n```\n\nLocal variable \u{2014} Declare with `DECLARE ");
        s.append(text);
        s.append(" TYPE`");
        assert(s@ =~= doc_hover(kind, text@).unwrap());
        return Some(s);
    }
    match lookup(upper.as_str()) {
        Some(entry) => {
            let mut s = String::from_str("```tsql\n");
            s.append(entry.syntax);
            s.append("\n```\n\n**`");
            s.append(upper.as_str());
            s.append("`** \u{2014} ");
            s.append(entry.description);
            assert(s@ =~= doc_hover(kind, text@).unwrap());
            Some(s)
        },
        None => {
            if kind.is_keyword() {
                let mut s = String::from_str("**`");
                s.append(upper.as_str());
                s.append("`** \u{2014} T-SQL Keyword");
                assert(s@ =~= doc_hover(kind, text@).unwrap());
                Some(s)
            } else {
                None
            }
        },
    }
}

/// Whether `offset` lies in `[start, end]`; when the span is empty or
/// reversed, only `start <= offset` is asked.
pub open spec fn in_span_spec(offset: int, start: int, end: int) -> bool {
    if end > start {
        start <= offset <= end
    } else {
        start <= offset
    }
}

/// Whether `offset` lies in `[span_start, span_end]`, with a window of 2000
/// bytes past the offset standing in for an empty or reversed span.
pub fn in_span(offset: usize, span_start: usize, span_end: u32) -> (r: bool)
    ensures
        r == in_span_spec(offset as int, span_start as int, span_end as int),
{
    let end: usize = if span_end as usize > span_start {
        span_end as usize
    } else {
        offset.saturating_add(2000)
    };
    offset >= span_start && offset <= end
}

/// Names of the named tables of a table source (join trees included).
pub open spec fn tref_names(tr: TableReference) -> Seq<Seq<char>>
    decreases tr,
{
    match tr {
        TableReference::Table { name, .. } => seq![name.name@],
        TableReference::Joined { joins } => joins_names(joins@),
        TableReference::Subquery { .. } => Seq::empty(),
    }
}

/// Names of the named tables of joins, in order.
pub open spec fn joins_names(js: Seq<Join>) -> Seq<Seq<char>>
    decreases js,
{
    if js.len() == 0 {
        Seq::empty()
    } else {
        joins_names(js.drop_last()) + tref_names(js.last().table)
    }
}

/// Names of the named tables of table sources, in order.
pub open spec fn trefs_names(rs: Seq<TableReference>) -> Seq<Seq<char>>
    decreases rs,
{
    if rs.len() == 0 {
        Seq::empty()
    } else {
        trefs_names(rs.drop_last()) + tref_names(rs.last())
    }
}

fn push_tref_names(tr: &TableReference, out: &mut Vec<String>)
    ensures
        strs(final(out)@) == strs(old(out)@) + tref_names(*tr),
    decreases tr,
{
    let ghost o = strs(out@);
    match tr {
        TableReference::Table { name, .. } => {
            out.push(name.name.clone());
        },
        TableReference::Joined { joins } => {
            push_joins_names(joins, out);
        },
        TableReference::Subquery { .. } => {},
    }
    assert(strs(out@) =~= o + tref_names(*tr));
}

fn push_joins_names(js: &Vec<Join>, out: &mut Vec<String>)
    ensures
        strs(final(out)@) == strs(old(out)@) + joins_names(js@),
    decreases js,
{
    let ghost o = strs(out@);
    let mut i: usize = 0;
    assert(js@.take(0) =~= Seq::<Join>::empty());
    assert(strs(out@) =~= o + joins_names(js@.take(0)));
    while i < js.len()
        invariant
            i <= js@.len(),
            strs(out@) == o + joins_names(js@.take(i as int)),
        decreases js@.len() - i,
    {
        assert(js@.take(i + 1).drop_last() =~= js@.take(i as int));
        push_tref_names(&js[i].table, out);
        assert(strs(out@) =~= o + joins_names(js@.take(i + 1)));
        i = i + 1;
    }
    assert(js@.take(js@.len() as int) =~= js@);
}

/// Names of the named tables of table sources (join trees included), in
/// order.
pub fn collect_table_names(tables: &Vec<TableReference>) -> (r: Vec<String>)
    ensures
        strs(r@) == trefs_names(tables@),
{
    let mut out: Vec<String> = Vec::new();
    let mut i: usize = 0;
    assert(tables@.take(0) =~= Seq::<TableReference>::empty());
    assert(strs(out@) =~= trefs_names(tables@.take(0)));
    while i < tables.len()
        invariant
            i <= tables@.len(),
            strs(out@) == trefs_names(tables@.take(i as int)),
        decreases tables@.len() - i,
    {
        assert(tables@.take(i + 1).drop_last() =~= tables@.take(i as int));
        push_tref_names(&tables[i], &mut out);
        i = i + 1;
    }
    assert(tables@.take(tables@.len() as int) =~= tables@);
    out
}

/// Hover of the first column of a table whose name equals `ident`, ASCII
/// letters compared case-insensitively.
pub open spec fn column_in_table(tbl: TableModel, ident: Seq<char>) -> Option<Seq<char>>
    decreases tbl.columns.len(),
{
    if tbl.columns.len() == 0 {
        None
    } else {
        match column_in_table(TableModel { columns: tbl.columns.drop_last(), ..tbl }, ident) {
            Some(h) => Some(h),
            None => if eq_ignore_ascii(tbl.columns.last().name, ident) {
                Some(column_hover_text(tbl.columns.last(), tbl.name))
            } else {
                None
            },
        }
    }
}

/// Hover of the first matching column of the first of the named tables that
/// has one.
pub open spec fn column_in_names(t: &SymbolTable, names: Seq<Seq<char>>, ident: Seq<char>) -> Option<Seq<char>>
    decreases names.len(),
{
    if names.len() == 0 {
        None
    } else {
        match column_in_names(t, names.drop_last(), ident) {
            Some(h) => Some(h),
            None => match value_of(t.tables@, uppercase(names.last())) {
                Some(tbl) => column_in_table(tbl@, ident),
                None => None,
            },
        }
    }
}

fn column_in_table_exec(tbl: &crate::symbol_table::TableSymbol, ident: &str) -> (r: Option<String>)
    ensures
        match r {
            Some(h) => column_in_table(tbl@, ident@) == Some(h@),
            None => column_in_table(tbl@, ident@) is None,
        },
{
    let ghost m = tbl@;
    let mut i: usize = 0;
    assert(column_in_table(TableModel { columns: m.columns.take(0), ..m }, ident@) is None);
    while i < tbl.columns.len()
        invariant
            i <= tbl.columns@.len(),
            m == tbl@,
            column_in_table(TableModel { columns: m.columns.take(i as int), ..m }, ident@) is None,
        decreases tbl.columns@.len() - i,
    {
        let col = &tbl.columns[i];
        assert(m.columns.take(i + 1).drop_last() =~= m.columns.take(i as int));
        assert(m.columns.take(i + 1).last() == col@);
        if eq_ignore_ascii_case(col.name.as_str(), ident) {
            let h = format_column_hover(col, tbl.name.as_str());
            proof {
                assert(column_in_table(TableModel { columns: m.columns.take(i + 1), ..m }, ident@) == Some(h@));
                lemma_column_in_table_prefix(m, i + 1, ident@);
            }
            return Some(h);
        }
        i = i + 1;
    }
    assert(m.columns.take(m.columns.len() as int) =~= m.columns);
    assert(TableModel { columns: m.columns.take(m.columns.len() as int), ..m } == m);
    None
}

proof fn lemma_column_in_table_prefix(m: TableModel, n: int, ident: Seq<char>)
    requires
        0 <= n <= m.columns.len(),
        column_in_table(TableModel { columns: m.columns.take(n), ..m }, ident) is Some,
    ensures
        column_in_table(m, ident) == column_in_table(TableModel { columns: m.columns.take(n), ..m }, ident),
    decreases m.columns.len() - n,
{
    if n < m.columns.len() {
        assert(m.columns.take(n + 1).drop_last() =~= m.columns.take(n));
        assert(TableModel { columns: m.columns.take(n + 1), ..m }.columns.drop_last() == m.columns.take(n));
        lemma_column_in_table_prefix(m, n + 1, ident);
    } else {
        assert(m.columns.take(n) =~= m.columns);
        assert(TableModel { columns: m.columns.take(n), ..m } == m);
    }
}

fn column_in_names_exec(t: &SymbolTable, names: &Vec<String>, ident: &str) -> (r: Option<String>)
    ensures
        match r {
            Some(h) => column_in_names(t, strs(names@), ident@) == Some(h@),
            None => column_in_names(t, strs(names@), ident@) is None,
        },
{
    let ghost ns = strs(names@);
    let mut i: usize = 0;
    assert(ns.take(0) =~= Seq::<Seq<char>>::empty());
    while i < names.len()
        invariant
            i <= names@.len(),
            ns == strs(names@),
            column_in_names(t, ns.take(i as int), ident@) is None,
        decreases names@.len() - i,
    {
        assert(ns.take(i + 1).drop_last() =~= ns.take(i as int));
        assert(ns.take(i + 1).last() == names@[i as int]@);
        match SymbolTableBuilder::find_table(t, names[i].as_str()) {
            Some(tbl) => {
                match column_in_table_exec(tbl, ident) {
                    Some(h) => {
                        proof {
                            lemma_column_in_names_prefix(t, ns, i + 1, ident@);
                        }
                        return Some(h);
                    },
                    None => {},
                }
            },
            None => {},
        }
        i = i + 1;
    }
    assert(ns.take(ns.len() as int) =~= ns);
    None
}

proof fn lemma_column_in_names_prefix(t: &SymbolTable, s: Seq<Seq<char>>, n: int, ident: Seq<char>)
    requires
        0 <= n <= s.len(),
        column_in_names(t, s.take(n), ident) is Some,
    ensures
        column_in_names(t, s, ident) == column_in_names(t, s.take(n), ident),
    decreases s.len() - n,
{
    if n < s.len() {
        assert(s.take(n + 1).drop_last() =~= s.take(n));
        lemma_column_in_names_prefix(t, s, n + 1, ident);
    } else {
        assert(s.take(n) =~= s);
    }
}

/// Column hover of `ident` at `offset` in a statement: inside the span of
/// the innermost SELECT, INSERT or UPDATE around the offset, the first
/// matching column of the tables it names; nested blocks, branches, loops,
/// TRY/CATCH blocks and procedure and trigger bodies are searched in order.
pub open spec fn column_hover_in(t: &SymbolTable, s: Statement, offset: int, ident: Seq<char>) -> Option<Seq<char>>
    decreases s,
{
    match s {
        Statement::Select(q) => if !in_span_spec(offset, q.span.start as int, q.span.end as int) {
            None
        } else {
            match q.from {
                Some(f) => column_in_names(t, trefs_names(f.tables@), ident),
                None => None,
            }
        },
        Statement::Insert { table, span, .. } => if !in_span_spec(offset, span.start as int, span.end as int) {
            None
        } else {
            match value_of(t.tables@, uppercase(table.name@)) {
                Some(tbl) => column_in_table(tbl@, ident),
                None => None,
            }
        },
        Statement::Update { table, from_clause, span, .. } => if !in_span_spec(offset, span.start as int, span.end as int) {
            None
        } else {
            match table {
                TableReference::Table { name, .. } => column_in_names(t, seq![name.name@] + match from_clause {
                    Some(f) => trefs_names(f.tables@),
                    None => Seq::empty(),
                }, ident),
                _ => None,
            }
        },
        Statement::Block(b) => column_hover_in_all(t, b.statements@, offset, ident),
        Statement::If { then_branch, else_branch, .. } => match column_hover_in(t, *then_branch, offset, ident) {
            Some(h) => Some(h),
            None => match else_branch {
                Some(e) => column_hover_in(t, *e, offset, ident),
                None => None,
            },
        },
        Statement::While { body, .. } => column_hover_in(t, *body, offset, ident),
        Statement::TryCatch { try_block, catch_block, .. } => match column_hover_in_all(t, try_block.statements@, offset, ident) {
            Some(h) => Some(h),
            None => column_hover_in_all(t, catch_block.statements@, offset, ident),
        },
        Statement::Create(c) => match *c {
            CreateStatement::Procedure(pd) => column_hover_in_all(t, pd.body@, offset, ident),
            CreateStatement::Trigger(tr) => column_hover_in_all(t, tr.body@, offset, ident),
            _ => None,
        },
        _ => None,
    }
}

/// The first column hover found in a sequence of statements.
pub open spec fn column_hover_in_all(t: &SymbolTable, ss: Seq<Statement>, offset: int, ident: Seq<char>) -> Option<Seq<char>>
    decreases ss,
{
    if ss.len() == 0 {
        None
    } else {
        match column_hover_in_all(t, ss.drop_last(), offset, ident) {
            Some(h) => Some(h),
            None => column_hover_in(t, ss.last(), offset, ident),
        }
    }
}

proof fn lemma_column_hover_prefix(t: &SymbolTable, s: Seq<Statement>, n: int, offset: int, ident: Seq<char>)
    requires
        0 <= n <= s.len(),
        column_hover_in_all(t, s.take(n), offset, ident) is Some,
    ensures
        column_hover_in_all(t, s, offset, ident) == column_hover_in_all(t, s.take(n), offset, ident),
    decreases s.len() - n,
{
    if n < s.len() {
        assert(s.take(n + 1).drop_last() =~= s.take(n));
        lemma_column_hover_prefix(t, s, n + 1, offset, ident);
    } else {
        assert(s.take(n) =~= s);
    }
}

fn resolve_column_in_statement(stmt: &Statement, t: &SymbolTable, offset: usize, ident: &str) -> (r: Option<String>)
    ensures
        match r {
            Some(h) => column_hover_in(t, *stmt, offset as int, ident@) == Some(h@),
            None => column_hover_in(t, *stmt, offset as int, ident@) is None,
        },
    decreases stmt,
{
    match stmt {
        Statement::Select(q) => {
            if !in_span(offset, q.span.start as usize, q.span.end) {
                return None;
            }
            match &q.from {
                Some(f) => {
                    let names = collect_table_names(&f.tables);
                    column_in_names_exec(t, &names, ident)
                },
                None => None,
            }
        },
        Statement::Insert { table, span, .. } => {
            if !in_span(offset, span.start as usize, span.end) {
                return None;
            }
            match SymbolTableBuilder::find_table(t, table.name.as_str()) {
                Some(tbl) => column_in_table_exec(tbl, ident),
                None => None,
            }
        },
        Statement::Update { table, from_clause, span, .. } => {
            if !in_span(offset, span.start as usize, span.end) {
                return None;
            }
            match table {
                TableReference::Table { name, .. } => {
                    let mut all: Vec<String> = Vec::new();
                    all.push(name.name.clone());
                    match from_clause {
                        Some(f) => {
                            let mut more = collect_table_names(&f.tables);
                            let ghost a0 = all@;
                            let ghost m0 = more@;
                            all.append(&mut more);
                            assert(all@ =~= a0 + m0);
                            assert(strs(all@) =~= seq![name.name@] + trefs_names(f.tables@));
                        },
                        None => {
                            assert(strs(all@) =~= seq![name.name@] + Seq::<Seq<char>>::empty());
                        },
                    }
                    column_in_names_exec(t, &all, ident)
                },
                _ => None,
            }
        },
        Statement::Block(b) => resolve_column_in_statements(&b.statements, t, offset, ident),
        Statement::If { then_branch, else_branch, .. } => {
            match resolve_column_in_statement(then_branch, t, offset, ident) {
                Some(h) => Some(h),
                None => match else_branch {
                    Some(e) => resolve_column_in_statement(e, t, offset, ident),
                    None => None,
                },
            }
        },
        Statement::While { body, .. } => resolve_column_in_statement(body, t, offset, ident),
        Statement::TryCatch { try_block, catch_block, .. } => {
            match resolve_column_in_statements(&try_block.statements, t, offset, ident) {
                Some(h) => Some(h),
                None => resolve_column_in_statements(&catch_block.statements, t, offset, ident),
            }
        },
        Statement::Create(c) => {
            match &**c {
                CreateStatement::Procedure(pd) => resolve_column_in_statements(&pd.body, t, offset, ident),
                CreateStatement::Trigger(tr) => resolve_column_in_statements(&tr.body, t, offset, ident),
                _ => None,
            }
        },
        _ => None,
    }
}

fn resolve_column_in_statements(ss: &Vec<Statement>, t: &SymbolTable, offset: usize, ident: &str) -> (r: Option<String>)
    ensures
        match r {
            Some(h) => column_hover_in_all(t, ss@, offset as int, ident@) == Some(h@),
            None => column_hover_in_all(t, ss@, offset as int, ident@) is None,
        },
    decreases ss,
{
    let mut i: usize = 0;
    assert(ss@.take(0) =~= Seq::<Statement>::empty());
    while i < ss.len()
        invariant
            i <= ss@.len(),
            column_hover_in_all(t, ss@.take(i as int), offset as int, ident@) is None,
        decreases ss@.len() - i,
    {
        assert(ss@.take(i + 1).drop_last() =~= ss@.take(i as int));
        match resolve_column_in_statement(&ss[i], t, offset, ident) {
            Some(h) => {
                proof {
                    lemma_column_hover_prefix(t, ss@, i + 1, offset as int, ident@);
                }
                return Some(h);
            },
            None => {},
        }
        i = i + 1;
    }
    assert(ss@.take(ss@.len() as int) =~= ss@);
    None
}

/// Column hover of `ident_text` at `offset`, from the first statement of
/// the analysis that gives one.
pub fn build_column_hover(analysis: &DocumentAnalysis, offset: usize, ident_text: &str) -> (r: Option<String>)
    ensures
        match r {
            Some(h) => column_hover_in_all(&analysis.symbol_table, analysis.statements@, offset as int, ident_text@)
                == Some(h@),
            None => column_hover_in_all(&analysis.symbol_table, analysis.statements@, offset as int, ident_text@) is None,
        },
{
    resolve_column_in_statements(&analysis.statements, &analysis.symbol_table, offset, ident_text)
}

/// Hover content of token `t` at `offset`: schema information, else a
/// column of a table in scope, else documentation.
pub open spec fn hover_content(a: &DocumentAnalysis, offset: int, t: OwnedToken) -> Option<Seq<char>> {
    match schema_hover(&a.symbol_table, t.kind, t.text@) {
        Some(h) => Some(h),
        None => match column_hover_in_all(&a.symbol_table, a.statements@, offset, t.text@) {
            Some(h) => Some(h),
            None => doc_hover(t.kind, t.text@),
        },
    }
}

/// A hover: Markdown text and the range of the token it is about.
pub struct Hover {
    /// Markdown text.
    pub contents: String,
    /// Range of the token.
    pub range: Option<Range>,
}

/// Hover at an editor position: the content of the token covering the
/// position (see [`hover_content`]) over the token's range; nothing when no
/// token covers it or there is nothing to say.
pub fn hover_with_analysis(analysis: &DocumentAnalysis, position: Position) -> (r: Option<Hover>)
    requires
        analysis.index_matches(),
    ensures
        ({
            let o = position_offset(analysis.line_index@, encode_utf8(analysis.source@), position);
            tokens_sorted(analysis.tokens@) ==> match covering_token(analysis.tokens@, o) {
                Some(i) => match hover_content(analysis, o, analysis.tokens@[i]) {
                    Some(c) => r matches Some(h) && h.contents@ == c && h.range == Some(range_at(
                        analysis.line_index@,
                        analysis.tokens@[i].span.start as int,
                        analysis.tokens@[i].span.end as int,
                    )),
                    None => r is None,
                },
                None => r is None,
            }
        }),
{
    let offset = analysis.line_index.position_to_offset(analysis.source.as_str(), position);
    let (token, idx) = match analysis.find_token_at(offset) {
        Some(t) => t,
        None => return None,
    };
    proof {
        if tokens_sorted(analysis.tokens@) {
            crate::analysis::lemma_covering_unique(analysis.tokens@, offset as int, idx as int);
        }
    }
    let content = match build_schema_hover(&analysis.symbol_table, token.kind, token.text.as_str()) {
        Some(c) => c,
        None => match build_column_hover(analysis, offset, token.text.as_str()) {
            Some(c) => c,
            None => match build_hover_content(token.kind, token.text.as_str()) {
                Some(c) => c,
                None => return None,
            },
        },
    };
    Some(Hover {
        contents: content,
        range: Some(analysis.line_index.offset_to_range(token.span.start, token.span.end)),
    })
}

} // verus!
