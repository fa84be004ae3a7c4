//! Inlay hints: the type after each declared variable, and the parameter
//! name before each positional EXEC argument of a procedure the document
//! defines.

use crate::analysis::DocumentAnalysis;
use crate::ast::{ExecArgument, Statement, VariableDeclaration};
use crate::config::InlayConfig;
use crate::line_index::position_at;
use crate::position::{Position, Range};
use crate::symbol_table::{uppercase, value_of, ParameterModel};
use vstd::prelude::*;
use vstd::string::*;

verus! {

/// What a hint carries for a later resolution.
#[derive(Debug, Clone, PartialEq, Eq)]
pub enum InlayHintData {
    /// A variable type hint, with the type as written out.
    VariableType {
        /// The type, e.g. `VARCHAR(100)`.
        type_label: String,
    },
    /// A parameter name hint, with the parameter name.
    ParameterName {
        /// The parameter name, with its `@`.
        name: String,
    },
}

/// Kind of an inlay hint.
#[derive(Debug, Clone, Copy, PartialEq, Eq, Structural)]
pub enum InlayHintKind {
    /// A type annotation.
    Type,
    /// A parameter name.
    Parameter,
}

/// An inlay hint.
pub struct InlayHint {
    /// Where the hint is shown.
    pub position: Position,
    /// Text shown.
    pub label: String,
    /// Kind of hint.
    pub kind: Option<InlayHintKind>,
    /// Space before the label.
    pub padding_left: Option<bool>,
    /// Space after the label.
    pub padding_right: Option<bool>,
    /// Resolution data.
    pub data: Option<InlayHintData>,
}

/// Content of an [`InlayHint`].
pub struct InlayHintView {
    /// Where the hint is shown.
    pub position: Position,
    /// Text shown.
    pub label: Seq<char>,
    /// Kind of hint.
    pub kind: Option<InlayHintKind>,
    /// Space before the label.
    pub padding_left: Option<bool>,
    /// Space after the label.
    pub padding_right: Option<bool>,
    /// What the hint carries for resolution.
    pub data: Option<InlayHintDataView>,
}

/// Content of an [`InlayHintData`].
pub enum InlayHintDataView {
    /// A variable type hint, with the type as written out.
    VariableType {
        /// The type.
        type_label: Seq<char>,
    },
    /// A parameter name hint, with the parameter name.
    ParameterName {
        /// The parameter name.
        name: Seq<char>,
    },
}

impl View for InlayHint {
    type V = InlayHintView;

    open spec fn view(&self) -> InlayHintView {
        InlayHintView {
            position: self.position,
            label: self.label@,
            kind: self.kind,
            padding_left: self.padding_left,
            padding_right: self.padding_right,
            data: match self.data {
                Some(InlayHintData::VariableType { type_label }) => Some(
                    InlayHintDataView::VariableType { type_label: type_label@ },
                ),
                Some(InlayHintData::ParameterName { name }) => Some(InlayHintDataView::ParameterName { name: name@ }),
                None => None,
            },
        }
    }
}

/// The contents of a sequence of hints.
pub open spec fn hints_view(v: Seq<InlayHint>) -> Seq<InlayHintView> {
    v.map_values(|h: InlayHint| h@)
}

/// Whether `p` comes before `q` (line first, then character).
pub open spec fn pos_lt(p: Position, q: Position) -> bool {
    p.line < q.line || (p.line == q.line && p.character < q.character)
}

/// Whether a hint position lies in the viewport: from its start (included)
/// to its end (excluded); anywhere when there is no viewport.
pub open spec fn in_viewport(p: Position, range: Option<Range>) -> bool {
    match range {
        None => true,
        Some(r) => !pos_lt(p, r.start) && pos_lt(p, r.end),
    }
}

/// Whether a position lies in the viewport (see [`in_viewport`]).
pub fn in_range(position: Position, range: Option<Range>) -> (r: bool)
    ensures
        r == in_viewport(position, range),
{
    match range {
        None => true,
        Some(r) => {
            let after_start = position.line > r.start.line
                || (position.line == r.start.line && position.character >= r.start.character);
            let before_end = position.line < r.end.line
                || (position.line == r.end.line && position.character < r.end.character);
            after_start && before_end
        },
    }
}

/// The type hint of a variable at `p`: `: <type>` with a space before it,
/// carrying the type as variable-type data; none for an empty type.
pub open spec fn type_hint(p: Position, data_type: Seq<char>) -> Option<InlayHintView> {
    if data_type.len() == 0 {
        None
    } else {
        Some(InlayHintView {
            position: p,
            label: ": "@ + data_type,
            kind: Some(InlayHintKind::Type),
            padding_left: Some(true),
            padding_right: None,
            data: Some(InlayHintDataView::VariableType { type_label: data_type }),
        })
    }
}

/// The parameter hint at `p`: `<name>:` with a space after it, carrying
/// the name as parameter-name data.
pub open spec fn param_hint(p: Position, name: Seq<char>) -> InlayHintView {
    InlayHintView {
        position: p,
        label: name + ":"@,
        kind: Some(InlayHintKind::Parameter),
        padding_left: None,
        padding_right: Some(true),
        data: Some(InlayHintDataView::ParameterName { name }),
    }
}

fn make_type_hint(position: Position, data_type: &String) -> (r: Option<InlayHint>)
    ensures
        match r {
            Some(h) => type_hint(position, data_type@) == Some(h@),
            None => type_hint(position, data_type@) is None,
        },
{
    if data_type.as_str().unicode_len() == 0 {
        return None;
    }
    let mut label = String::from_str(": ");
    label.append(data_type.as_str());
    Some(InlayHint {
        position,
        label,
        kind: Some(InlayHintKind::Type),
        padding_left: Some(true),
        padding_right: None,
        data: Some(InlayHintData::VariableType { type_label: data_type.clone() }),
    })
}

fn make_param_hint(position: Position, name: &String) -> (r: InlayHint)
    ensures
        r@ == param_hint(position, name@),
{
    let mut label = name.clone();
    label.append(":");
    InlayHint {
        position,
        label,
        kind: Some(InlayHintKind::Parameter),
        padding_left: None,
        padding_right: Some(true),
        data: Some(InlayHintData::ParameterName { name: name.clone() }),
    }
}

/// Type hints of the variables of a DECLARE with a sound name span, at the
/// end of each name, inside the viewport.
pub open spec fn declare_hints(li: Seq<u32>, vs: Seq<VariableDeclaration>, range: Option<Range>) -> Seq<InlayHintView>
    decreases vs.len(),
{
    if vs.len() == 0 {
        Seq::empty()
    } else {
        let v = vs.last();
        let prev = declare_hints(li, vs.drop_last(), range);
        if v.name.span.start >= v.name.span.end {
            prev
        } else {
            let p = position_at(li, v.name.span.end as int);
            match type_hint(p, v.data_type@) {
                Some(h) => if in_viewport(p, range) { prev.push(h) } else { prev },
                None => prev,
            }
        }
    }
}

/// Parameter hints of the first `n` arguments of an EXEC whose procedure
/// has parameters `params`: one before each positional argument with a
/// sound span that has a parameter at its index, inside the viewport.
pub open spec fn exec_hints(li: Seq<u32>, args: Seq<ExecArgument>, params: Seq<ParameterModel>, range: Option<Range>) -> Seq<InlayHintView>
    decreases args.len(),
{
    if args.len() == 0 {
        Seq::empty()
    } else {
        let idx = args.len() - 1;
        let prev = exec_hints(li, args.drop_last(), params, range);
        match args.last() {
            ExecArgument::Positional { span, .. } => if idx >= params.len() || span.start >= span.end {
                prev
            } else {
                let p = position_at(li, span.start as int);
                if in_viewport(p, range) { prev.push(param_hint(p, params[idx].name)) } else { prev }
            },
            ExecArgument::Named { .. } => prev,
        }
    }
}

/// Hints of the first `n` top-level statements of an analysis, by family
/// as the configuration enables them.
pub open spec fn statements_hints(a: &DocumentAnalysis, n: int, range: Option<Range>, config: InlayConfig) -> Seq<InlayHintView>
    decreases n,
{
    if n <= 0 {
        Seq::empty()
    } else {
        let prev = statements_hints(a, n - 1, range, config);
        match a.statements@[n - 1] {
            Statement::Declare { variables, .. } => if config.enable_variable_types {
                prev + declare_hints(a.line_index@, variables@, range)
            } else {
                prev
            },
            Statement::Exec { procedure, arguments, .. } => if config.enable_parameter_names {
                match value_of(a.symbol_table.procedures@, uppercase(procedure.name@)) {
                    Some(p) => prev + exec_hints(a.line_index@, arguments@, p@.parameters, range),
                    None => prev,
                }
            } else {
                prev
            },
            _ => prev,
        }
    }
}

/// Inlay hints of a document (see [`statements_hints`]), limited to the
/// viewport when one is given.
pub fn inlay_hints(analysis: &DocumentAnalysis, range: Option<Range>, config: &InlayConfig) -> (r: Vec<InlayHint>)
    ensures
        hints_view(r@) == statements_hints(analysis, analysis.statements@.len() as int, range, *config),
{
    let mut hints: Vec<InlayHint> = Vec::new();
    let mut s: usize = 0;
    while s < analysis.statements.len()
        invariant
            s <= analysis.statements@.len(),
            hints_view(hints@) == statements_hints(analysis, s as int, range, *config),
        decreases analysis.statements@.len() - s,
    {
        let ghost base = hints_view(hints@);
        match &analysis.statements[s] {
            Statement::Declare { variables, .. } => {
                if config.enable_variable_types {
                    let mut i: usize = 0;
                    assert(variables@.take(0) =~= Seq::<VariableDeclaration>::empty());
                    assert(hints_view(hints@) =~= base + declare_hints(analysis.line_index@, variables@.take(0), range));
                    while i < variables.len()
                        invariant
                            i <= variables@.len(),
                            hints_view(hints@) == base + declare_hints(analysis.line_index@, variables@.take(i as int), range),
                        decreases variables@.len() - i,
                    {
                        assert(variables@.take(i + 1).drop_last() =~= variables@.take(i as int));
                        let v = &variables[i];
                        if v.name.span.start < v.name.span.end {
                            let (line, character) = analysis.line_index.offset_to_position(v.name.span.end);
                            let p = Position { line, character };
                            match make_type_hint(p, &v.data_type) {
                                Some(h) => {
                                    if in_range(p, range) {
                                        let ghost before = hints@;
                                        hints.push(h);
                                        assert(hints_view(hints@) =~= hints_view(before).push(h@));
                                    }
                                },
                                None => {},
                            }
                        }
                        assert(hints_view(hints@) =~= base + declare_hints(analysis.line_index@, variables@.take(i + 1), range));
                        i = i + 1;
                    }
                    assert(variables@.take(variables@.len() as int) =~= variables@);
                }
            },
            Statement::Exec { procedure, arguments, .. } => {
                if config.enable_parameter_names {
                    match analysis.symbol_table.procedures.get(procedure.name.as_str()) {
                        Some(proc) => {
                            let params = &proc.parameters;
                            let ghost pm = proc@.parameters;
                            let mut i: usize = 0;
                            assert(arguments@.take(0) =~= Seq::<ExecArgument>::empty());
                            assert(hints_view(hints@) =~= base + exec_hints(analysis.line_index@, arguments@.take(0), pm, range));
                            while i < arguments.len()
                                invariant
                                    i <= arguments@.len(),
                                    pm == proc@.parameters,
                                    params@.len() == pm.len(),
                                    forall|k: int| 0 <= k < params@.len() ==> (#[trigger] params@[k])@ == pm[k],
                                    hints_view(hints@) == base + exec_hints(analysis.line_index@, arguments@.take(i as int), pm, range),
                                decreases arguments@.len() - i,
                            {
                                assert(arguments@.take(i + 1).drop_last() =~= arguments@.take(i as int));
                                match &arguments[i] {
                                    ExecArgument::Positional { span, .. } => {
                                        if i < params.len() && span.start < span.end {
                                            let (line, character) = analysis.line_index.offset_to_position(span.start);
                                            let p = Position { line, character };
                                            let h = make_param_hint(p, &params[i].name);
                                            if in_range(p, range) {
                                                let ghost before = hints@;
                                                hints.push(h);
                                                assert(hints_view(hints@) =~= hints_view(before).push(h@));
                                            }
                                        }
                                    },
                                    ExecArgument::Named { .. } => {},
                                }
                                assert(hints_view(hints@) =~= base + exec_hints(analysis.line_index@, arguments@.take(i + 1), pm, range));
                                i = i + 1;
                            }
                            assert(arguments@.take(arguments@.len() as int) =~= arguments@);
                        },
                        None => {},
                    }
                }
            },
            _ => {},
        }
        s = s + 1;
    }
    hints
}

} // verus!
