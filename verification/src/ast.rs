//! The parts of a parsed T-SQL statement tree that the analyses read: names
//! with their spans, definitions, declarations, nested blocks with their
//! spans, SELECT lists, FROM clauses and the targets of data changes.
//! Expressions are kept as far as the analyses look into them: function calls
//! and subqueries are told apart, every other expression is a node with its
//! sub-expressions. Statements of other kinds are `Other`, with their
//! expressions.

use crate::token::Span;
use vstd::prelude::*;

verus! {

/// A name as written, with its byte span.
pub struct Ident {
    /// The name.
    pub name: String,
    /// Byte span of the name.
    pub span: Span,
}

/// Column of a `CREATE TABLE`.
pub struct ColumnDefinition {
    /// Column name.
    pub name: Ident,
    /// Data type, as written out.
    pub data_type: String,
    /// `NULL` / `NOT NULL`, when given.
    pub nullability: Option<bool>,
    /// Whether the column is an IDENTITY column.
    pub identity: bool,
}

/// Table-level constraint of a `CREATE TABLE`.
pub enum TableConstraint {
    /// `PRIMARY KEY (columns)`
    PrimaryKey {
        /// Constraint name.
        name: Option<Ident>,
        /// Key columns.
        columns: Vec<Ident>,
    },
    /// `FOREIGN KEY (columns) REFERENCES ref_table (ref_columns)`
    Foreign {
        /// Constraint name.
        name: Option<Ident>,
        /// Key columns.
        columns: Vec<Ident>,
        /// Referenced table.
        ref_table: Ident,
        /// Referenced columns.
        ref_columns: Vec<Ident>,
    },
    /// `UNIQUE (columns)`
    Unique {
        /// Constraint name.
        name: Option<Ident>,
        /// Unique columns.
        columns: Vec<Ident>,
    },
    /// `CHECK (...)`
    Check,
}

/// `CREATE TABLE`.
pub struct TableDefinition {
    /// Table name.
    pub name: Ident,
    /// Columns in order.
    pub columns: Vec<ColumnDefinition>,
    /// Table constraints in order.
    pub constraints: Vec<TableConstraint>,
    /// Whether the table is temporary.
    pub temporary: bool,
    /// Span of the whole statement.
    pub span: Span,
}

/// Parameter of a `CREATE PROCEDURE`.
pub struct ParameterDefinition {
    /// Parameter name, with its `@`.
    pub name: Ident,
    /// Data type, as written out.
    pub data_type: String,
    /// Whether the parameter is OUTPUT.
    pub is_output: bool,
}

/// `CREATE PROCEDURE`.
pub struct ProcedureDefinition {
    /// Procedure name.
    pub name: Ident,
    /// Parameters in order.
    pub parameters: Vec<ParameterDefinition>,
    /// Body statements.
    pub body: Vec<Statement>,
    /// Span of the whole statement.
    pub span: Span,
}

/// `CREATE VIEW`.
pub struct ViewDefinition {
    /// View name.
    pub name: Ident,
    /// The view's query.
    pub query: SelectStatement,
    /// Span of the whole statement.
    pub span: Span,
}

/// `CREATE [UNIQUE] INDEX`.
pub struct IndexDefinition {
    /// Index name.
    pub name: Ident,
    /// Indexed table.
    pub table: Ident,
    /// Indexed columns.
    pub columns: Vec<Ident>,
    /// Whether the index is unique.
    pub unique: bool,
    /// Span of the whole statement.
    pub span: Span,
}

/// `CREATE TRIGGER`.
pub struct TriggerDefinition {
    /// Trigger name.
    pub name: Ident,
    /// Table the trigger is defined on.
    pub table: Ident,
    /// Trigger events, each named `Insert`, `Update` or `Delete`.
    pub events: Vec<String>,
    /// Body statements.
    pub body: Vec<Statement>,
    /// Span of the whole statement.
    pub span: Span,
}

/// A `CREATE` statement.
pub enum CreateStatement {
    /// `CREATE TABLE`
    Table(TableDefinition),
    /// `CREATE PROCEDURE`
    Procedure(ProcedureDefinition),
    /// `CREATE VIEW`
    View(ViewDefinition),
    /// `CREATE INDEX`
    Index(IndexDefinition),
    /// `CREATE TRIGGER`
    Trigger(TriggerDefinition),
}

/// One variable of a `DECLARE`.
pub struct VariableDeclaration {
    /// Variable name, with its `@`.
    pub name: Ident,
    /// Data type, as written out.
    pub data_type: String,
}

/// A table source of a FROM clause.
pub enum TableReference {
    /// A named table, with an optional alias.
    Table {
        /// Table name.
        name: Ident,
        /// Alias.
        alias: Option<Ident>,
    },
    /// A derived table, with an optional alias.
    Subquery {
        /// The derived table's query.
        query: Box<SelectStatement>,
        /// Alias.
        alias: Option<Ident>,
    },
    /// A parenthesized join tree.
    Joined {
        /// Its joins.
        joins: Vec<Join>,
    },
}

/// One join of a FROM clause.
pub struct Join {
    /// The joined table source.
    pub table: TableReference,
    /// The ON condition, when present.
    pub on_condition: Option<Expression>,
}

/// An expression.
pub enum Expression {
    /// A function call: its name and its arguments.
    FunctionCall {
        /// Function name.
        name: Ident,
        /// Arguments in order.
        args: Vec<Expression>,
    },
    /// A subquery (scalar, `EXISTS` or `IN (...)`).
    Subquery(Box<SelectStatement>),
    /// Any other expression, with its sub-expressions in source order.
    Other(Vec<Expression>),
}

/// A FROM clause: comma-separated table sources, then joins.
pub struct FromClause {
    /// Comma-separated table sources.
    pub tables: Vec<TableReference>,
    /// Joins.
    pub joins: Vec<Join>,
}

/// One item of a SELECT list.
pub enum SelectItem {
    /// `*`
    Wildcard,
    /// `qualifier.*`
    QualifiedWildcard(Ident),
    /// An expression, with or without an alias.
    Expression(Expression),
}

/// A SELECT query.
pub struct SelectStatement {
    /// `TOP` expression, when present.
    pub top: Option<Expression>,
    /// SELECT list.
    pub columns: Vec<SelectItem>,
    /// FROM clause, when present.
    pub from: Option<FromClause>,
    /// WHERE condition, when present.
    pub where_clause: Option<Expression>,
    /// GROUP BY expressions.
    pub group_by: Vec<Expression>,
    /// HAVING condition, when present.
    pub having: Option<Expression>,
    /// ORDER BY expressions.
    pub order_by: Vec<Expression>,
    /// Row limit and offset expressions, in order.
    pub limit: Vec<Expression>,
    /// Span of the query.
    pub span: Span,
}

/// A `BEGIN ... END` block, or the body of a TRY or CATCH block.
pub struct BlockStatement {
    /// Statements in order.
    pub statements: Vec<Statement>,
    /// Span of the block.
    pub span: Span,
}

/// Where the rows of an INSERT come from.
pub enum InsertSource {
    /// `VALUES (...), ...`: rows of expressions.
    Values(Vec<Vec<Expression>>),
    /// `INSERT ... SELECT ...`
    Select(Box<SelectStatement>),
    /// `DEFAULT VALUES`
    DefaultValues,
}

/// One argument of an EXEC.
pub enum ExecArgument {
    /// A positional argument, with its span.
    Positional {
        /// The argument.
        value: Expression,
        /// Span of the argument.
        span: Span,
    },
    /// A named argument (`@name = value`).
    Named {
        /// Parameter name.
        name: Ident,
        /// The argument.
        value: Expression,
    },
}

/// A statement.
pub enum Statement {
    /// `CREATE ...`
    Create(Box<CreateStatement>),
    /// `DECLARE ...`
    Declare {
        /// Declared variables in order.
        variables: Vec<VariableDeclaration>,
        /// Span of the statement.
        span: Span,
    },
    /// `BEGIN ... END`
    Block(BlockStatement),
    /// `IF ... [ELSE ...]`
    If {
        /// Condition.
        condition: Expression,
        /// Branch taken when the condition holds.
        then_branch: Box<Statement>,
        /// Branch taken otherwise.
        else_branch: Option<Box<Statement>>,
        /// Span of the statement.
        span: Span,
    },
    /// `WHILE ...`
    While {
        /// Condition.
        condition: Expression,
        /// Loop body.
        body: Box<Statement>,
        /// Span of the statement.
        span: Span,
    },
    /// `BEGIN TRY ... END TRY BEGIN CATCH ... END CATCH`
    TryCatch {
        /// The TRY block.
        try_block: BlockStatement,
        /// The CATCH block.
        catch_block: BlockStatement,
        /// Span of the statement.
        span: Span,
    },
    /// `SELECT ...`
    Select(Box<SelectStatement>),
    /// `INSERT INTO table [(columns)] ...`
    Insert {
        /// Target table.
        table: Ident,
        /// Listed columns.
        columns: Vec<Ident>,
        /// Source of the rows.
        source: InsertSource,
        /// Span of the statement.
        span: Span,
    },
    /// `UPDATE table_source SET ... [FROM ...] [WHERE ...]`
    Update {
        /// Target table source.
        table: TableReference,
        /// Assigned values, in order.
        assignments: Vec<Expression>,
        /// FROM clause, when present.
        from_clause: Option<FromClause>,
        /// WHERE condition, when present.
        where_clause: Option<Expression>,
        /// Span of the statement.
        span: Span,
    },
    /// `DELETE FROM table [FROM ...] [WHERE ...]`
    Delete {
        /// Target table.
        table: Ident,
        /// FROM clause, when present.
        from_clause: Option<FromClause>,
        /// WHERE condition, when present.
        where_clause: Option<Expression>,
        /// Span of the statement.
        span: Span,
    },
    /// `EXEC procedure arguments`
    Exec {
        /// Procedure called.
        procedure: Ident,
        /// Arguments in order.
        arguments: Vec<ExecArgument>,
        /// Span of the statement.
        span: Span,
    },
    /// Any other statement, with the expressions it holds in source order.
    Other {
        /// Expressions of the statement, in source order.
        expressions: Vec<Expression>,
        /// Span of the statement.
        span: Span,
    },
}

/// The span of a statement.
pub open spec fn stmt_span(s: Statement) -> Span {
    match s {
        Statement::Create(c) => match *c {
            CreateStatement::Table(d) => d.span,
            CreateStatement::Procedure(d) => d.span,
            CreateStatement::View(d) => d.span,
            CreateStatement::Index(d) => d.span,
            CreateStatement::Trigger(d) => d.span,
        },
        Statement::Declare { span, .. } => span,
        Statement::Block(b) => b.span,
        Statement::If { span, .. } => span,
        Statement::While { span, .. } => span,
        Statement::TryCatch { span, .. } => span,
        Statement::Select(q) => q.span,
        Statement::Insert { span, .. } => span,
        Statement::Update { span, .. } => span,
        Statement::Delete { span, .. } => span,
        Statement::Exec { span, .. } => span,
        Statement::Other { span, .. } => span,
    }
}

impl Statement {
    /// The span of the statement.
    pub fn span(&self) -> (r: Span)
        ensures
            r == stmt_span(*self),
    {
        match self {
            Statement::Create(c) => match &**c {
                CreateStatement::Table(d) => d.span,
                CreateStatement::Procedure(d) => d.span,
                CreateStatement::View(d) => d.span,
                CreateStatement::Index(d) => d.span,
                CreateStatement::Trigger(d) => d.span,
            },
            Statement::Declare { span, .. } => *span,
            Statement::Block(b) => b.span,
            Statement::If { span, .. } => *span,
            Statement::While { span, .. } => *span,
            Statement::TryCatch { span, .. } => *span,
            Statement::Select(q) => q.span,
            Statement::Insert { span, .. } => *span,
            Statement::Update { span, .. } => *span,
            Statement::Delete { span, .. } => *span,
            Statement::Exec { span, .. } => *span,
            Statement::Other { span, .. } => *span,
        }
    }
}

/// A parse error as the diagnostics read it.
pub struct ParseError {
    /// Message, as the parser words it.
    pub message: String,
    /// Byte span of the offending text, when known.
    pub span: Option<Span>,
    /// One-based line of the error.
    pub line: u32,
    /// One-based column of the error.
    pub column: u32,
}

} // verus!
