use ase_ls_core::analysis::{fallback_cut, needs_table_fallback, prefer_partial, DocumentAnalysis};
use ase_ls_core::ast::{
    ParseError,
    BlockStatement, ColumnDefinition, CreateStatement, Expression, FromClause, Ident, IndexDefinition, InsertSource, Join,
    ExecArgument, ParameterDefinition, ProcedureDefinition, SelectItem, SelectStatement, Statement, TableConstraint, TableDefinition, TableReference, TriggerDefinition,
    VariableDeclaration, ViewDefinition,
};
use ase_ls_core::code_lens::{code_lenses, lens_uri, resolve_lens, CodeLens};
use ase_ls_core::config::Severity;
use ase_ls_core::symbol_store::{DocumentSource, SymbolKind, SymbolStore};
use ase_ls_core::definition::{definition_locations, definition_ranges_with_analysis};
use ase_ls_core::references::{reference_locations, Location};
use ase_ls_core::hover::hover_with_analysis;
use ase_ls_core::config::DocumentLinkConfig;
use ase_ls_core::document_links::{document_links, resolve_document_link, DocumentLink};
use ase_ls_core::completion::{complete_for_context, incomplete_threshold, CompletionItemKind, CompletionList};
use ase_ls_core::config::CompletionConfig;
use ase_ls_core::symbol_table::{ConstraintKind, SymbolTable};
use ase_ls_core::span_resolve::{resolve_block_end, resolve_span_end_fallback, resolve_stmt_end};
use ase_ls_core::semantic_tokens::{semantic_tokens_full_with_analysis, semantic_tokens_range_with_analysis};
use ase_ls_core::config::InlayConfig;
use ase_ls_core::inlay_hints::{inlay_hints, InlayHint, InlayHintData, InlayHintKind};
use ase_ls_core::symbols::document_symbols;
use ase_ls_core::diagnostics::{diagnose, Diagnostic};
use ase_ls_core::code_actions::{
    code_actions_with_analysis, find_values_token_start, resolve_insert_stmt_end, CodeAction, CodeActionKind,
};
use ase_ls_core::folding::{folding_ranges_with_analysis, FoldingRange, FoldingRangeKind};
use ase_ls_core::formatting::TextEdit;
use ase_ls_core::position::{Position, Range};
use ase_ls_core::symbol_table::SymbolTableBuilder;
use ase_ls_core::token::{OwnedToken, Span, TokenKind};

fn keyword(word: &str) -> Option<TokenKind> {
    Some(match word {
        "SELECT" => TokenKind::Select,
        "FROM" => TokenKind::From,
        "WHERE" => TokenKind::Where,
        "GO" => TokenKind::Go,
        "INSERT" => TokenKind::Insert,
        "INTO" => TokenKind::Into,
        "VALUES" => TokenKind::Values,
        "CREATE" => TokenKind::Create,
        "TABLE" => TokenKind::Table,
        "BEGIN" => TokenKind::Begin,
        "END" => TokenKind::End,
        "TRY" => TokenKind::Try,
        "CATCH" => TokenKind::Catch,
        "IF" => TokenKind::If,
        "ELSE" => TokenKind::Else,
        "WHILE" => TokenKind::While,
        "PROCEDURE" | "PROC" => TokenKind::Procedure,
        "TRIGGER" => TokenKind::Trigger,
        "DECLARE" => TokenKind::Declare,
        "AS" => TokenKind::As,
        "INT" => TokenKind::Int,
        "VARCHAR" => TokenKind::Varchar,
        "DECIMAL" => TokenKind::Decimal,
        "DISTINCT" => TokenKind::Distinct,
        "TOP" => TokenKind::Top,
        "VIEW" => TokenKind::View,
        "SET" => TokenKind::SetKw,
        "INDEX" => TokenKind::Index,
        "EXEC" | "EXECUTE" => TokenKind::Exec,
        "RETURN" => TokenKind::Return,
        "UPDATE" => TokenKind::Update,
        "DELETE" => TokenKind::Delete,
        "JOIN" => TokenKind::Join,
        "INNER" | "LEFT" | "RIGHT" | "OUTER" | "CROSS" => TokenKind::OtherKeyword,
        "ON" | "FOR" | "DEFAULT" | "IDENTITY" | "NULL" | "NOT" => TokenKind::OtherKeyword,
        _ => return None,
    })
}

/// Tokens of simple T-SQL text, comments left out.
fn lex(source: &str) -> Vec<OwnedToken> {
    let b = source.as_bytes();
    let mut out = Vec::new();
    let mut i = 0;
    let push = |out: &mut Vec<OwnedToken>, kind: TokenKind, s: usize, e: usize| {
        out.push(OwnedToken { kind, text: source[s..e].to_string(), span: Span { start: s as u32, end: e as u32 } });
    };
    while i < b.len() {
        let c = b[i];
        if c.is_ascii_whitespace() {
            i += 1;
        } else if c == b'-' && i + 1 < b.len() && b[i + 1] == b'-' {
            while i < b.len() && b[i] != b'\n' {
                i += 1;
            }
        } else if c == b'/' && i + 1 < b.len() && b[i + 1] == b'*' {
            i = comment_end(b, i);
        } else if c == b'\'' {
            let s = i;
            i += 1;
            while i < b.len() && b[i] != b'\'' {
                i += 1;
            }
            i = (i + 1).min(b.len());
            push(&mut out, TokenKind::String, s, i);
        } else if c.is_ascii_digit() {
            let s = i;
            while i < b.len() && b[i].is_ascii_digit() {
                i += 1;
            }
            push(&mut out, TokenKind::Number, s, i);
        } else if c.is_ascii_alphabetic() || c == b'_' || c == b'@' || c == b'#' {
            let s = i;
            while i < b.len() && (b[i].is_ascii_alphanumeric() || b[i] == b'_' || b[i] == b'@' || b[i] == b'#') {
                i += 1;
            }
            let word = &source[s..i];
            let kind = if word.starts_with("@@") {
                TokenKind::GlobalVar
            } else if word.starts_with('@') {
                TokenKind::LocalVar
            } else if word.starts_with("##") {
                TokenKind::GlobalTempTable
            } else if word.starts_with('#') {
                TokenKind::TempTable
            } else {
                keyword(&word.to_uppercase()).unwrap_or(TokenKind::Ident)
            };
            push(&mut out, kind, s, i);
        } else {
            let kind = match c {
                b'(' => TokenKind::LParen,
                b')' => TokenKind::RParen,
                b',' => TokenKind::Comma,
                b';' => TokenKind::Semicolon,
                b'.' => TokenKind::Dot,
                b'*' => TokenKind::Star,
                b'=' => TokenKind::Eq,
                b':' => TokenKind::Colon,
                _ => TokenKind::Other,
            };
            push(&mut out, kind, i, i + 1);
            i += 1;
        }
    }
    out
}

fn comment_end(b: &[u8], start: usize) -> usize {
    let mut i = start + 2;
    while i + 1 < b.len() && !(b[i] == b'*' && b[i + 1] == b'/') {
        i += 1;
    }
    (i + 2).min(b.len())
}

/// The block comments of a text, as tokens.
fn block_comments(source: &str) -> Vec<OwnedToken> {
    let b = source.as_bytes();
    let mut out = Vec::new();
    let mut i = 0;
    while i + 1 < b.len() {
        if b[i] == b'/' && b[i + 1] == b'*' {
            let e = comment_end(b, i);
            out.push(OwnedToken {
                kind: TokenKind::BlockComment,
                text: source[i..e].to_string(),
                span: Span { start: i as u32, end: e as u32 },
            });
            i = e;
        } else {
            i += 1;
        }
    }
    out
}

fn is_name(k: Option<TokenKind>) -> bool {
    matches!(k, Some(TokenKind::Ident) | Some(TokenKind::TempTable) | Some(TokenKind::GlobalTempTable))
}

/// A small recursive-descent reader of the statements these tests use.
struct Reader {
    toks: Vec<OwnedToken>,
    i: usize,
    errors: Vec<ParseError>,
}

fn starts_statement(k: TokenKind) -> bool {
    matches!(
        k,
        TokenKind::Select
            | TokenKind::Insert
            | TokenKind::Create
            | TokenKind::Begin
            | TokenKind::End
            | TokenKind::If
            | TokenKind::Else
            | TokenKind::While
            | TokenKind::Declare
            | TokenKind::Exec
            | TokenKind::Update
            | TokenKind::Delete
            | TokenKind::Go
            | TokenKind::Semicolon
    )
}

impl Reader {
    fn kind(&self) -> Option<TokenKind> {
        self.toks.get(self.i).map(|t| t.kind)
    }
    fn kind_at(&self, k: usize) -> Option<TokenKind> {
        self.toks.get(self.i + k).map(|t| t.kind)
    }
    fn upper(&self) -> String {
        self.toks.get(self.i).map(|t| t.text.to_uppercase()).unwrap_or_default()
    }
    fn bump(&mut self) -> OwnedToken {
        let t = self.toks[self.i].clone();
        self.i += 1;
        t
    }
    fn ident(&mut self) -> Ident {
        let t = self.bump();
        Ident { name: t.text, span: t.span }
    }
    fn span_from(&self, first: usize) -> Span {
        let last = self.i.min(self.toks.len()).saturating_sub(1);
        Span { start: self.toks[first.min(last)].span.start, end: self.toks[last].span.end }
    }
    /// Skip tokens up to a statement boundary at parenthesis depth zero.
    fn skip_clause(&mut self) {
        let mut depth = 0i32;
        while let Some(k) = self.kind() {
            if depth == 0 && (starts_statement(k) || k == TokenKind::From) {
                break;
            }
            if k == TokenKind::LParen {
                depth += 1;
            }
            if k == TokenKind::RParen {
                depth -= 1;
            }
            self.i += 1;
        }
    }
    fn statements_until(&mut self, stop: fn(&Reader) -> bool) -> Vec<Statement> {
        let mut out = Vec::new();
        while self.kind().is_some() && !stop(self) {
            if let Some(s) = self.statement() {
                out.push(s);
            }
        }
        out
    }
    fn block_body(&mut self) -> Vec<Statement> {
        self.statements_until(|r| r.kind() == Some(TokenKind::End))
    }
    fn statement(&mut self) -> Option<Statement> {
        let first = self.i;
        match self.kind()? {
            TokenKind::Go | TokenKind::Semicolon => {
                self.i += 1;
                None
            },
            TokenKind::Create => {
                self.i += 1;
                match self.kind()? {
                    TokenKind::Table => {
                        self.i += 1;
                        Some(self.table(first))
                    },
                    TokenKind::Procedure => {
                        self.i += 1;
                        let name = self.ident();
                        let mut parameters = Vec::new();
                        while self.kind().is_some() && self.kind() != Some(TokenKind::As) {
                            if self.kind() == Some(TokenKind::LocalVar) {
                                let pname = self.ident();
                                let data_type = self.data_type();
                                let is_output = self.upper() == "OUTPUT";
                                parameters.push(ParameterDefinition { name: pname, data_type, is_output });
                            } else {
                                self.i += 1;
                            }
                        }
                        self.i += 1;
                        let body = self.statement().into_iter().collect();
                        let span = self.span_from(first);
                        Some(Statement::Create(Box::new(CreateStatement::Procedure(ProcedureDefinition {
                            name,
                            parameters,
                            body,
                            span,
                        }))))
                    },
                    TokenKind::View => {
                        self.i += 1;
                        let name = self.ident();
                        self.i += 1;
                        let query = self.select();
                        let span = self.span_from(first);
                        Some(Statement::Create(Box::new(CreateStatement::View(ViewDefinition { name, query, span }))))
                    },
                    TokenKind::Index => {
                        self.i += 1;
                        let name = self.ident();
                        self.i += 1;
                        let table = self.ident();
                        let mut columns = Vec::new();
                        if self.kind() == Some(TokenKind::LParen) {
                            self.i += 1;
                            while self.kind().is_some() && self.kind() != Some(TokenKind::RParen) {
                                if self.kind() == Some(TokenKind::Comma) {
                                    self.i += 1;
                                } else {
                                    columns.push(self.ident());
                                }
                            }
                            self.i += 1;
                        }
                        let span = self.span_from(first);
                        Some(Statement::Create(Box::new(CreateStatement::Index(IndexDefinition {
                            name,
                            table,
                            columns,
                            unique: false,
                            span,
                        }))))
                    },
                    TokenKind::Trigger => {
                        self.i += 1;
                        let name = self.ident();
                        self.i += 1;
                        let table = self.ident();
                        let mut events = Vec::new();
                        while self.kind().is_some() && self.kind() != Some(TokenKind::As) {
                            match self.upper().as_str() {
                                "INSERT" => events.push("Insert".to_string()),
                                "UPDATE" => events.push("Update".to_string()),
                                "DELETE" => events.push("Delete".to_string()),
                                _ => {},
                            }
                            self.i += 1;
                        }
                        self.i += 1;
                        let body = self.statements_until(|r| r.kind() == Some(TokenKind::Go));
                        let span = self.span_from(first);
                        Some(Statement::Create(Box::new(CreateStatement::Trigger(TriggerDefinition {
                            name,
                            table,
                            events,
                            body,
                            span,
                        }))))
                    },
                    _ => {
                        self.skip_clause();
                        None
                    },
                }
            },
            TokenKind::Select => Some(Statement::Select(Box::new(self.select()))),
            TokenKind::Update => {
                self.i += 1;
                let name = self.ident();
                self.skip_clause();
                let span = self.span_from(first);
                Some(Statement::Update {
                    table: TableReference::Table { name, alias: None },
                    assignments: Vec::new(),
                    from_clause: None,
                    where_clause: None,
                    span,
                })
            },
            TokenKind::Delete => {
                self.i += 1;
                if self.kind() == Some(TokenKind::From) {
                    self.i += 1;
                }
                let table = self.ident();
                self.skip_clause();
                let span = self.span_from(first);
                Some(Statement::Delete { table, from_clause: None, where_clause: None, span })
            },
            TokenKind::Insert => self.insert(),
            TokenKind::Begin => {
                self.i += 1;
                if matches!(self.upper().as_str(), "TRAN" | "TRANSACTION") {
                    self.i += 1;
                    return None;
                }
                if self.kind() == Some(TokenKind::Try) {
                    self.i += 1;
                    let t0 = first;
                    let try_statements = self.block_body();
                    self.i += 2;
                    let try_block = BlockStatement { statements: try_statements, span: self.span_from(t0) };
                    let c0 = self.i;
                    self.i += 2;
                    let catch_statements = self.block_body();
                    self.i += 2;
                    let catch_block = BlockStatement { statements: catch_statements, span: self.span_from(c0) };
                    let span = self.span_from(first);
                    Some(Statement::TryCatch { try_block, catch_block, span })
                } else {
                    let statements = self.block_body();
                    if self.kind() != Some(TokenKind::End) {
                        return None;
                    }
                    self.i += 1;
                    Some(Statement::Block(BlockStatement { statements, span: self.span_from(first) }))
                }
            },
            TokenKind::If => {
                self.i += 1;
                self.skip_clause();
                let then_branch = Box::new(self.statement()?);
                let else_branch = if self.kind() == Some(TokenKind::Else) {
                    self.i += 1;
                    Some(Box::new(self.statement()?))
                } else {
                    None
                };
                let span = self.span_from(first);
                Some(Statement::If { condition: Expression::Other(Vec::new()), then_branch, else_branch, span })
            },
            TokenKind::While => {
                self.i += 1;
                self.skip_clause();
                let body = Box::new(self.statement()?);
                let span = self.span_from(first);
                Some(Statement::While { condition: Expression::Other(Vec::new()), body, span })
            },
            TokenKind::Declare => {
                self.i += 1;
                let mut variables = Vec::new();
                while self.kind() == Some(TokenKind::LocalVar) {
                    let name = self.ident();
                    let data_type = self.data_type();
                    variables.push(VariableDeclaration { name, data_type });
                    if self.kind() == Some(TokenKind::Comma) {
                        self.i += 1;
                    }
                }
                let span = self.span_from(first);
                Some(Statement::Declare { variables, span })
            },
            TokenKind::Exec => {
                self.i += 1;
                let procedure = self.ident();
                let mut arguments = Vec::new();
                while let Some(k) = self.kind() {
                    if starts_statement(k) {
                        break;
                    }
                    if k == TokenKind::Comma {
                        self.i += 1;
                        continue;
                    }
                    if k == TokenKind::LocalVar && self.kind_at(1) == Some(TokenKind::Eq) {
                        let name = self.ident();
                        self.i += 1;
                        self.argument();
                        arguments.push(ExecArgument::Named { name, value: Expression::Other(Vec::new()) });
                    } else {
                        let span = self.argument();
                        arguments.push(ExecArgument::Positional { value: Expression::Other(Vec::new()), span });
                    }
                }
                let span = self.span_from(first);
                Some(Statement::Exec { procedure, arguments, span })
            },
            k => {
                if k == TokenKind::Ident {
                    let t = &self.toks[self.i];
                    self.errors.push(ParseError {
                        message: format!("unexpected token '{}'", t.text),
                        span: Some(t.span),
                        line: 1,
                        column: 1,
                    });
                }
                self.i += 1;
                self.skip_clause();
                None
            },
        }
    }
    /// A data type as written out: its name and any parenthesised part.
    fn data_type(&mut self) -> String {
        if self.kind().is_none() {
            return String::new();
        }
        let mut text = self.bump().text;
        if self.kind() == Some(TokenKind::LParen) {
            while let Some(k) = self.kind() {
                text.push_str(&self.bump().text);
                if k == TokenKind::RParen {
                    break;
                }
            }
        }
        text
    }
    /// Skip one EXEC argument; its span.
    fn argument(&mut self) -> Span {
        let first = self.i;
        while let Some(k) = self.kind() {
            if k == TokenKind::Comma || starts_statement(k) {
                break;
            }
            self.i += 1;
        }
        if self.i == first {
            return Span { start: 0, end: 0 };
        }
        self.span_from(first)
    }
    fn table(&mut self, first: usize) -> Statement {
        let name = self.ident();
        let mut columns = Vec::new();
        let mut constraints = Vec::new();
        self.i += 1;
        while self.kind().is_some() && self.kind() != Some(TokenKind::RParen) {
            if matches!(self.upper().as_str(), "CONSTRAINT" | "PRIMARY" | "FOREIGN" | "UNIQUE" | "CHECK") {
                constraints.push(self.constraint());
                if self.kind() == Some(TokenKind::Comma) {
                    self.i += 1;
                }
                continue;
            }
            let cname = self.ident();
            let data_type = self.bump().text;
            let mut identity = false;
            let mut nullability = None;
            let mut depth = 0;
            while let Some(k) = self.kind() {
                if depth == 0 && (k == TokenKind::Comma || k == TokenKind::RParen) {
                    break;
                }
                if k == TokenKind::LParen {
                    depth += 1;
                }
                if k == TokenKind::RParen {
                    depth -= 1;
                }
                match self.upper().as_str() {
                    "IDENTITY" => identity = true,
                    "NOT" => nullability = Some(false),
                    "NULL" if nullability.is_none() => nullability = Some(true),
                    _ => {},
                }
                self.i += 1;
            }
            columns.push(ColumnDefinition { name: cname, data_type, nullability, identity });
            if self.kind() == Some(TokenKind::Comma) {
                self.i += 1;
            }
        }
        self.i += 1;
        let span = self.span_from(first);
        let temporary = name.name.starts_with('#');
        Statement::Create(Box::new(CreateStatement::Table(TableDefinition { name, columns, constraints, temporary, span })))
    }
    /// A parenthesised list of names.
    fn name_list(&mut self) -> Vec<Ident> {
        let mut out = Vec::new();
        if self.kind() != Some(TokenKind::LParen) {
            return out;
        }
        self.i += 1;
        while self.kind().is_some() && self.kind() != Some(TokenKind::RParen) {
            if self.kind() == Some(TokenKind::Comma) {
                self.i += 1;
            } else {
                out.push(self.ident());
            }
        }
        self.i += 1;
        out
    }
    /// A table-level constraint, up to the comma or parenthesis that ends it.
    fn constraint(&mut self) -> TableConstraint {
        let mut name = None;
        if self.upper() == "CONSTRAINT" {
            self.i += 1;
            name = Some(self.ident());
        }
        let c = match self.upper().as_str() {
            "PRIMARY" => {
                self.i += 2;
                TableConstraint::PrimaryKey { name, columns: self.name_list() }
            },
            "FOREIGN" => {
                self.i += 2;
                let columns = self.name_list();
                self.i += 1;
                let ref_table = self.ident();
                let ref_columns = self.name_list();
                TableConstraint::Foreign { name, columns, ref_table, ref_columns }
            },
            "UNIQUE" => {
                self.i += 1;
                TableConstraint::Unique { name, columns: self.name_list() }
            },
            _ => TableConstraint::Check,
        };
        let mut depth = 0;
        while let Some(k) = self.kind() {
            if depth == 0 && (k == TokenKind::Comma || k == TokenKind::RParen) {
                break;
            }
            if k == TokenKind::LParen {
                depth += 1;
            }
            if k == TokenKind::RParen {
                depth -= 1;
            }
            self.i += 1;
        }
        c
    }
    fn select(&mut self) -> SelectStatement {
        let first = self.i;
        self.i += 1;
        let mut top = None;
        if self.kind() == Some(TokenKind::Distinct) {
            self.i += 1;
        }
        if self.kind() == Some(TokenKind::Top) {
            self.i += 2;
            top = Some(Expression::Other(Vec::new()));
        }
        let mut columns = Vec::new();
        while let Some(k) = self.kind() {
            if k == TokenKind::From || starts_statement(k) {
                break;
            }
            if k == TokenKind::Star {
                columns.push(SelectItem::Wildcard);
                self.i += 1;
            } else if k == TokenKind::Comma {
                self.i += 1;
            } else {
                if is_name(Some(k)) && self.kind_at(1) == Some(TokenKind::LParen) {
                    let name = self.ident();
                    columns.push(SelectItem::Expression(Expression::FunctionCall { name, args: Vec::new() }));
                } else {
                    self.i += 1;
                    columns.push(SelectItem::Expression(Expression::Other(Vec::new())));
                }
                let mut depth = 0i32;
                while let Some(k2) = self.kind() {
                    if k2 == TokenKind::LParen {
                        depth += 1;
                    } else if k2 == TokenKind::RParen {
                        depth -= 1;
                    } else if depth > 0 {
                        self.i += 1;
                        continue;
                    }
                    if k2 == TokenKind::Comma || k2 == TokenKind::From || starts_statement(k2) {
                        break;
                    }
                    self.i += 1;
                }
            }
        }
        let mut from = None;
        if self.kind() == Some(TokenKind::From) {
            self.i += 1;
            let mut tables = Vec::new();
            while is_name(self.kind()) {
                let name = self.ident();
                let alias = if self.kind() == Some(TokenKind::Ident) { Some(self.ident()) } else { None };
                tables.push(TableReference::Table { name, alias });
                if self.kind() == Some(TokenKind::Comma) {
                    self.i += 1;
                } else {
                    break;
                }
            }
            let mut joins = Vec::new();
            loop {
                while self.kind() == Some(TokenKind::OtherKeyword) {
                    self.i += 1;
                }
                if self.kind() != Some(TokenKind::Join) {
                    break;
                }
                self.i += 1;
                if !is_name(self.kind()) {
                    break;
                }
                let name = self.ident();
                let alias = if self.kind() == Some(TokenKind::Ident) { Some(self.ident()) } else { None };
                let mut on_condition = None;
                if self.upper() == "ON" {
                    self.i += 1;
                    while let Some(k) = self.kind() {
                        if starts_statement(k) || k == TokenKind::Join || k == TokenKind::Where || k == TokenKind::OtherKeyword {
                            break;
                        }
                        self.i += 1;
                    }
                    on_condition = Some(Expression::Other(Vec::new()));
                }
                joins.push(Join { table: TableReference::Table { name, alias }, on_condition });
            }
            from = Some(FromClause { tables, joins });
        }
        self.skip_clause();
        SelectStatement {
            top,
            columns,
            from,
            where_clause: None,
            group_by: Vec::new(),
            having: None,
            order_by: Vec::new(),
            limit: Vec::new(),
            span: self.span_from(first),
        }
    }
    fn insert(&mut self) -> Option<Statement> {
        let first = self.i;
        self.i += 2;
        let table = self.ident();
        let mut columns = Vec::new();
        if self.kind() == Some(TokenKind::LParen) {
            self.i += 1;
            while self.kind().is_some() && self.kind() != Some(TokenKind::RParen) {
                if self.kind() == Some(TokenKind::Comma) {
                    self.i += 1;
                } else {
                    columns.push(self.ident());
                }
            }
            self.i += 1;
        }
        let source = match self.kind() {
            Some(TokenKind::Values) => {
                self.i += 1;
                let mut rows = Vec::new();
                while self.kind() == Some(TokenKind::LParen) {
                    self.i += 1;
                    let mut row = vec![Expression::Other(Vec::new())];
                    while self.kind().is_some() && self.kind() != Some(TokenKind::RParen) {
                        if self.kind() == Some(TokenKind::Comma) {
                            row.push(Expression::Other(Vec::new()));
                        }
                        self.i += 1;
                    }
                    self.i += 1;
                    rows.push(row);
                    if self.kind() == Some(TokenKind::Comma) {
                        self.i += 1;
                    }
                }
                InsertSource::Values(rows)
            },
            Some(TokenKind::Select) => InsertSource::Select(Box::new(self.select())),
            Some(TokenKind::OtherKeyword) if self.upper() == "DEFAULT" && self.kind_at(1) == Some(TokenKind::Values) => {
                self.i += 2;
                InsertSource::DefaultValues
            },
            _ => {
                self.skip_clause();
                return None;
            },
        };
        let span = self.span_from(first);
        Some(Statement::Insert { table, columns, source, span })
    }
}

fn parse(source: &str) -> Vec<Statement> {
    let mut r = Reader { toks: lex(source), i: 0, errors: Vec::new() };
    r.statements_until(|_| false)
}

/// The statements of a text and the errors met on unknown statement words.
fn parse_with_errors(source: &str) -> (Vec<Statement>, Vec<ParseError>) {
    let mut r = Reader { toks: lex(source), i: 0, errors: Vec::new() };
    let stmts = r.statements_until(|_| false);
    let mut errors = r.errors;
    for e in errors.iter_mut() {
        let start = e.span.map(|sp| sp.start as usize).unwrap_or(0);
        let before = &source[..start];
        e.line = before.matches('\n').count() as u32 + 1;
        e.column = (start - before.rfind('\n').map(|p| p + 1).unwrap_or(0)) as u32 + 1;
    }
    (stmts, errors)
}

fn make_analysis(source: &str) -> DocumentAnalysis {
    let stmts = parse(source);
    let table = SymbolTableBuilder::build(source, &stmts);
    let stmts = parse(source);
    DocumentAnalysis::from_parts(source.to_string(), lex(source), stmts, Vec::new(), table)
}

fn test_uri() -> String {
    "file:///test.sql".to_string()
}

fn actions(source: &str, sl: u32, sc: u32, el: u32, ec: u32) -> Vec<CodeAction> {
    let a = make_analysis(source);
    code_actions_with_analysis(&a, Range::new(Position::new(sl, sc), Position::new(el, ec)), &test_uri())
}

fn find<'a>(actions: &'a [CodeAction], title_part: &str) -> Option<&'a CodeAction> {
    actions.iter().find(|a| a.title.contains(title_part))
}

fn first_edit(a: &CodeAction) -> &TextEdit {
    let (uri, edits) = &a.edit.changes[0];
    assert_eq!(uri, &test_uri());
    &edits[0]
}

fn users_ddl() -> &'static str {
    "CREATE TABLE users (id INT, name VARCHAR(100))"
}

#[test]
fn test_ast_select_star_multiline_cursor_on_from_line() {
    let source = format!("{}\nSELECT *\nFROM users", users_ddl());
    assert!(find(&actions(&source, 2, 0, 2, 10), "Expand").is_some());
}

#[test]
fn test_ast_select_star_multiline_cursor_on_select_line() {
    let source = format!("{}\nSELECT *\nFROM users", users_ddl());
    assert!(find(&actions(&source, 1, 0, 1, 9), "Expand").is_some());
}

#[test]
fn test_ast_select_star_three_lines() {
    let source = format!("{}\nSELECT\n*\nFROM users", users_ddl());
    assert!(find(&actions(&source, 3, 0, 3, 10), "Expand").is_some());
}

#[test]
fn test_ast_select_star_with_where() {
    let source = format!("{}\nSELECT *\nFROM users\nWHERE id = 1", users_ddl());
    assert!(find(&actions(&source, 3, 0, 3, 10), "Expand").is_some());
}

#[test]
fn test_ast_no_expand_for_non_wildcard_select() {
    let source = format!("{}\nSELECT id\nFROM users", users_ddl());
    assert!(find(&actions(&source, 2, 0, 2, 10), "Expand").is_none());
}

#[test]
fn test_ast_select_star_expand_columns_content() {
    let source = "CREATE TABLE orders (order_id INT, customer_name VARCHAR(50), total DECIMAL)\nSELECT *\nFROM orders";
    let acts = actions(source, 1, 0, 1, 9);
    let text_edit = first_edit(find(&acts, "Expand").expect("should have expand action"));
    assert!(text_edit.new_text.contains("order_id"));
    assert!(text_edit.new_text.contains("customer_name"));
    assert!(text_edit.new_text.contains("total"));
    assert!(!text_edit.new_text.contains('*'));
    assert_eq!(text_edit.new_text, "order_id, customer_name, total");
}

#[test]
fn test_ast_select_star_edit_range_targets_star_only() {
    let source = format!("{}\nSELECT *\nFROM users", users_ddl());
    let acts = actions(&source, 1, 0, 1, 9);
    let text_edit = first_edit(find(&acts, "Expand").expect("should have expand action"));
    assert_eq!(text_edit.range.start.line, 1);
    assert_eq!(text_edit.range.start.character, 7);
    assert_eq!(text_edit.range.end.character, 8);
    assert_eq!(text_edit.new_text, "id, name");
}

#[test]
fn test_ast_insert_skeleton_via_analysis() {
    let source = "CREATE TABLE products (id INT, name VARCHAR(100), price DECIMAL)\nINSERT INTO products";
    let acts = actions(source, 1, 0, 1, 19);
    let text_edit = first_edit(find(&acts, "INSERT skeleton").expect("should have INSERT skeleton action"));
    assert!(text_edit.new_text.contains("id"));
    assert!(text_edit.new_text.contains("name"));
    assert!(text_edit.new_text.contains("price"));
    assert!(text_edit.new_text.contains("VALUES"));
}

#[test]
fn test_ast_select_star_unknown_table_no_action() {
    let source = "CREATE TABLE users (id INT)\nSELECT *\nFROM nonexistent";
    assert!(find(&actions(source, 1, 0, 1, 9), "Expand").is_none());
}

#[test]
fn test_ast_cursor_outside_statement_no_action() {
    let source = "CREATE TABLE users (id INT)\n\nSELECT * FROM users";
    assert!(find(&actions(source, 1, 0, 1, 0), "Expand").is_none());
}

#[test]
fn test_ast_insert_skip_when_values_exists() {
    let source = "CREATE TABLE users (id INT)\nINSERT INTO users VALUES (1)";
    assert!(find(&actions(source, 1, 0, 1, 16), "INSERT skeleton").is_none());
}

#[test]
fn test_ast_try_catch_wraps_block_at_cursor() {
    let acts = actions("BEGIN\n    SELECT 1\nEND", 0, 0, 0, 5);
    let a = find(&acts, "TRY").expect("Should offer TRY...CATCH wrap");
    assert_eq!(a.kind, CodeActionKind::Refactor);
    let edit = first_edit(a);
    assert!(edit.new_text.contains("BEGIN TRY"));
    assert!(edit.new_text.contains("BEGIN CATCH"));
    assert!(edit.new_text.contains("SELECT 1"));
    assert_eq!(edit.range.start.line, 0);
    assert_eq!(edit.range.end.line, 2);
    assert_eq!(edit.new_text, "BEGIN TRY\n    SELECT 1\nEND TRY\nBEGIN CATCH\n    -- Handle error\nEND CATCH");
}

#[test]
fn test_ast_try_catch_nested_inner_block() {
    let acts = actions("BEGIN\n    BEGIN\n        SELECT 1\n    END\nEND", 1, 4, 1, 9);
    let edit = first_edit(find(&acts, "TRY").expect("Should offer wrap for inner BEGIN"));
    assert_eq!(edit.range.start.line, 1);
    assert_eq!(edit.range.end.line, 3);
}

#[test]
fn test_ast_try_catch_no_trigger_on_body_line() {
    assert!(find(&actions("BEGIN\n    SELECT 1\nEND", 1, 4, 1, 12), "TRY").is_none());
}

#[test]
fn test_ast_try_catch_no_trigger_on_end_line() {
    assert!(find(&actions("BEGIN\n    SELECT 1\nEND", 2, 0, 2, 3), "TRY").is_none());
}

#[test]
fn test_ast_try_catch_preserves_indentation() {
    let acts = actions("CREATE PROCEDURE p AS\nBEGIN\n    SELECT 1\nEND", 1, 0, 1, 5);
    let edit = first_edit(find(&acts, "TRY").expect("wrap offered"));
    assert!(edit.new_text.contains("BEGIN TRY"));
    assert!(edit.new_text.contains("SELECT 1"));
    assert!(edit.new_text.contains("END TRY"));
    assert!(edit.new_text.contains("BEGIN CATCH"));
}

#[test]
fn test_ast_try_catch_outer_block_at_cursor() {
    let acts = actions("BEGIN\n    BEGIN\n        SELECT 1\n    END\nEND", 0, 0, 0, 5);
    let edit = first_edit(find(&acts, "TRY").expect("wrap offered"));
    assert_eq!(edit.range.start.line, 0);
    assert_eq!(edit.range.end.line, 4);
}

#[test]
fn test_ast_try_catch_action_kind_is_refactor() {
    let acts = actions("BEGIN\n    SELECT 1\nEND", 0, 0, 0, 5);
    assert_eq!(find(&acts, "TRY").expect("wrap offered").kind, CodeActionKind::Refactor);
}

#[test]
fn test_ast_try_catch_inside_trigger_body() {
    let source = "CREATE TRIGGER tr_test ON users FOR INSERT AS\nBEGIN\n    SELECT 1\nEND";
    assert!(find(&actions(source, 1, 0, 1, 5), "TRY").is_some());
}

fn column_list(source: &str, line: u32, sc: u32, ec: u32) -> Option<TextEdit> {
    let acts = actions(source, line, sc, line, ec);
    find(&acts, "Add column list").map(|a| {
        let e = first_edit(a);
        TextEdit { range: e.range, new_text: e.new_text.clone() }
    })
}

#[test]
fn test_insert_add_column_list() {
    let edit = column_list("CREATE TABLE t (id INT, name VARCHAR(100))\nINSERT INTO t VALUES (1, 'test')", 1, 0, 20)
        .expect("should offer column list");
    assert!(edit.new_text.contains("id, name"));
    assert!(!edit.new_text.contains("VALUES"), "new_text should not duplicate VALUES keyword");
    assert_eq!(edit.new_text, "(id, name) ");
    assert_eq!(edit.range, Range::new(Position::new(1, 14), Position::new(1, 14)));
}

#[test]
fn test_insert_skip_when_columns_exist() {
    let source = "CREATE TABLE t (id INT, name VARCHAR(100))\nINSERT INTO t (id, name) VALUES (1, 'test')";
    assert!(column_list(source, 1, 0, 20).is_none());
}

#[test]
fn test_insert_column_list_skips_identity() {
    let source = "CREATE TABLE t (id INT IDENTITY, name VARCHAR(100))\nINSERT INTO t VALUES ('test')";
    let edit = column_list(source, 1, 0, 20).expect("offered");
    assert!(!edit.new_text.contains("id"), "IDENTITY should be excluded");
    assert!(edit.new_text.contains("name"));
}

#[test]
fn test_insert_column_list_unknown_table_skip() {
    assert!(column_list("INSERT INTO unknown VALUES (1)", 0, 0, 10).is_none());
}

#[test]
fn test_insert_column_list_preserves_values() {
    let edit = column_list("CREATE TABLE t (a INT, b INT, c INT)\nINSERT INTO t VALUES (1, 2, 3)", 1, 0, 20).expect("offered");
    assert!(edit.new_text.contains("a, b, c"));
    assert!(!edit.new_text.contains("VALUES"));
}

#[test]
fn test_insert_column_list_no_cross_statement_values_match() {
    let source = "CREATE TABLE t (id INT, name VARCHAR(100))\nCREATE TABLE t2 (id INT, name VARCHAR(100))\nINSERT INTO t SELECT * FROM t2\nINSERT INTO t2 VALUES (1, 'test')\n";
    assert!(column_list(source, 2, 0, 20).is_none());
}

#[test]
fn test_insert_column_list_preserves_comments_between_table_and_values() {
    let source = "CREATE TABLE t (id INT, name VARCHAR(100))\nINSERT INTO t -- important comment\nVALUES (1, 'test')\n";
    let edit = column_list(source, 1, 0, 20).expect("Should offer column list");
    assert!(edit.range.start.line >= 2, "Edit should be at or near VALUES line, got line {}", edit.range.start.line);
    assert!(edit.new_text.contains("id, name"));
    assert_eq!(edit.range.start, edit.range.end);
}

#[test]
fn test_insert_column_list_is_zero_width_insertion() {
    let edit = column_list("CREATE TABLE t (a INT, b INT)\nINSERT INTO t VALUES (1, 2)", 1, 0, 20).expect("offered");
    assert_eq!(edit.range.start, edit.range.end);
    assert!(edit.new_text.starts_with('('));
}

#[test]
fn test_insert_column_list_inside_while() {
    let source = "CREATE TABLE t (id INT, name VARCHAR(100))\nWHILE 1 = 1\nBEGIN\n    INSERT INTO t VALUES (1, 'test')\nEND\n";
    let edit = column_list(source, 3, 4, 20).expect("Should offer column list for INSERT inside WHILE");
    assert!(edit.new_text.contains("id, name"), "new_text: {}", edit.new_text);
}

#[test]
fn test_insert_column_list_inside_if() {
    let source = "CREATE TABLE t (a INT, b INT)\nIF 1 = 1\nBEGIN\n    INSERT INTO t VALUES (1, 2)\nEND\n";
    assert!(column_list(source, 3, 4, 20).is_some());
}

#[test]
fn test_insert_column_list_inside_if_else() {
    let source = "CREATE TABLE t (a INT, b INT)\nIF 1 = 1\nBEGIN\n    SELECT 1\nEND\nELSE\nBEGIN\n    INSERT INTO t VALUES (1, 2)\nEND\n";
    assert!(column_list(source, 7, 4, 20).is_some());
}

#[test]
fn test_insert_column_list_inside_trigger() {
    let source = "CREATE TABLE t (id INT, name VARCHAR(100))\nCREATE TRIGGER trg ON t FOR INSERT AS\nBEGIN\n    INSERT INTO t VALUES (1, 'test')\nEND\n";
    assert!(column_list(source, 3, 4, 20).is_some());
}

#[test]
fn test_insert_column_list_inside_try() {
    let source = "CREATE TABLE t (a INT, b INT)\nBEGIN TRY\n    INSERT INTO t VALUES (1, 2)\nEND TRY\nBEGIN CATCH\n    SELECT 'error'\nEND CATCH\n";
    assert!(column_list(source, 2, 4, 20).is_some());
}

#[test]
fn test_insert_column_list_inside_catch() {
    let source = "CREATE TABLE log_table (err_msg VARCHAR(255))\nBEGIN TRY\n    SELECT 1\nEND TRY\nBEGIN CATCH\n    INSERT INTO log_table VALUES ('error')\nEND CATCH\n";
    assert!(column_list(source, 5, 4, 20).is_some());
}

#[test]
fn test_insert_column_list_inside_procedure() {
    let source = "CREATE TABLE t (a INT, b INT)\nCREATE PROCEDURE my_proc AS\nBEGIN\n    INSERT INTO t VALUES (1, 2)\nEND\n";
    assert!(column_list(source, 3, 4, 20).is_some());
}

#[test]
fn test_insert_column_list_all_identity_no_action() {
    assert!(column_list("CREATE TABLE t (id INT IDENTITY)\nINSERT INTO t VALUES (DEFAULT)", 1, 0, 20).is_none());
}

#[test]
fn test_analysis_insert_skeleton() {
    let source = "CREATE TABLE users (id INT, name VARCHAR(100))\nINSERT INTO users";
    assert!(find(&actions(source, 1, 0, 1, 20), "INSERT").is_some());
}

#[test]
fn test_analysis_empty_line_no_actions() {
    assert!(actions("CREATE TABLE t (a INT)\n\nSELECT * FROM t", 1, 0, 1, 0).is_empty());
}

#[test]
fn test_insert_column_list_with_semicolon_terminated() {
    assert!(column_list("CREATE TABLE t (a INT, b INT)\nINSERT INTO t VALUES (1, 2);\nSELECT * FROM t", 1, 0, 20).is_some());
}

#[test]
fn test_insert_column_list_no_semicolon_uses_last_token() {
    assert!(column_list("CREATE TABLE t (a INT, b INT)\nINSERT INTO t VALUES (1, 2)", 1, 0, 20).is_some());
}

#[test]
fn test_insert_column_list_cursor_before_insert() {
    assert!(column_list("CREATE TABLE t (a INT, b INT)\nINSERT INTO t VALUES (1, 2)", 0, 5, 10).is_none());
}

#[test]
fn test_get_line_out_of_range() {
    let analysis = make_analysis("hello\nworld");
    assert_eq!(analysis.get_line(0), "hello");
    assert_eq!(analysis.get_line(1), "world");
    assert_eq!(analysis.get_line(5), "");
    let empty_analysis = make_analysis("");
    assert_eq!(empty_analysis.get_line(0), "");
}

#[test]
fn test_insert_skip_when_no_values_source() {
    assert!(column_list("CREATE TABLE t (a INT, b INT)\nINSERT INTO t SELECT * FROM t", 1, 0, 20).is_none());
}

#[test]
fn test_analysis_try_catch() {
    assert!(find(&actions("BEGIN\n    SELECT 1\nEND", 0, 0, 0, 5), "TRY").is_some());
}

#[test]
fn test_two_inserts_inside_while_targets_second() {
    let source = "CREATE TABLE t (a INT, b INT)\nWHILE 1 = 1\nBEGIN\n    INSERT INTO t VALUES (0, 0)\n    INSERT INTO t VALUES (1, 1)\nEND\n";
    let edit = column_list(source, 4, 4, 20).expect("Should offer column list for second INSERT");
    assert!(edit.new_text.contains("a, b"));
    assert_eq!(edit.range.start.line, 4);
}

#[test]
fn test_two_top_level_inserts_offers_action() {
    let source = "CREATE TABLE t (x INT, y INT)\nINSERT INTO t VALUES (10, 20)\nINSERT INTO t VALUES (30, 40)\n";
    assert!(column_list(source, 2, 0, 20).is_some());
}

#[test]
fn test_two_inserts_inside_procedure_targets_second() {
    let source = "CREATE TABLE t (id INT, val VARCHAR(50))\nCREATE PROCEDURE p AS\nBEGIN\n    INSERT INTO t VALUES (1, 'a')\n    INSERT INTO t VALUES (2, 'b')\nEND\n";
    let edit = column_list(source, 4, 4, 20).expect("offered");
    assert!(edit.new_text.contains("id, val"), "new_text: {}", edit.new_text);
}

fn tok(kind: TokenKind, text: &str, start: u32, end: u32) -> OwnedToken {
    OwnedToken { kind, text: text.to_string(), span: Span { start, end } }
}

#[test]
fn test_resolve_insert_stmt_end_broken_span_uses_semicolon() {
    let tokens = vec![
        tok(TokenKind::Insert, "INSERT", 0, 6),
        tok(TokenKind::Ident, "t", 12, 13),
        tok(TokenKind::Values, "VALUES", 14, 20),
        tok(TokenKind::LParen, "(", 21, 22),
        tok(TokenKind::Number, "1", 22, 23),
        tok(TokenKind::RParen, ")", 23, 24),
        tok(TokenKind::Semicolon, ";", 24, 25),
        tok(TokenKind::Select, "SELECT", 26, 32),
    ];
    assert_eq!(resolve_insert_stmt_end(Span { start: 0, end: 0 }, &tokens), 25);
}

#[test]
fn test_resolve_insert_stmt_end_valid_span() {
    let tokens: Vec<OwnedToken> = Vec::new();
    assert_eq!(resolve_insert_stmt_end(Span { start: 10, end: 30 }, &tokens), 30);
}

#[test]
fn test_resolve_insert_stmt_end_no_semicolon_uses_last_token() {
    let tokens = vec![
        tok(TokenKind::Insert, "INSERT", 0, 6),
        tok(TokenKind::Ident, "t", 12, 13),
        tok(TokenKind::Values, "VALUES", 14, 20),
        tok(TokenKind::Number, "1", 22, 23),
    ];
    assert_eq!(resolve_insert_stmt_end(Span { start: 0, end: 0 }, &tokens), 23);
}

#[test]
fn test_find_values_respects_end_boundary() {
    let tokens = vec![
        tok(TokenKind::Insert, "INSERT", 0, 6),
        tok(TokenKind::Values, "VALUES", 14, 20),
        tok(TokenKind::Insert, "INSERT", 30, 36),
        tok(TokenKind::Values, "VALUES", 44, 50),
    ];
    assert_eq!(find_values_token_start(&tokens, 0, 29), Some(14));
    assert_eq!(find_values_token_start(&tokens, 30, 60), Some(44));
}

#[test]
fn broken_insert_span_with_empty_token_list_wraps_past_start() {
    let tokens: Vec<OwnedToken> = Vec::new();
    assert_eq!(resolve_insert_stmt_end(Span { start: 7, end: 3 }, &tokens), 107);
}

fn star_warnings(source: &str) -> Vec<Diagnostic> {
    diagnose(&make_analysis(source)).into_iter().filter(|d| d.message.contains("SELECT *")).collect()
}

#[test]
fn test_diagnose_includes_semantic_warnings() {
    let diags = diagnose(&make_analysis("SELECT * FROM users"));
    assert_eq!(diags.len(), 1);
    assert_eq!(diags[0].severity, Some(Severity::Warning));
}

#[test]
fn test_select_star_warns() {
    assert!(!star_warnings("SELECT * FROM users").is_empty());
}

#[test]
fn test_select_columns_no_warning() {
    assert!(star_warnings("SELECT id, name FROM users").is_empty());
}

#[test]
fn test_select_star_warning_points_to_star() {
    let w = star_warnings("SELECT * FROM users");
    let d = w.first().expect("warning");
    assert_eq!(d.range.start.character, 7);
    assert_eq!(d.range.end.character, 8);
    assert_eq!(d.severity, Some(Severity::Warning));
}

#[test]
fn test_select_count_star_no_warning() {
    assert!(star_warnings("SELECT COUNT(*) FROM users").is_empty());
}

#[test]
fn test_select_star_with_extra_columns_warns() {
    assert!(!star_warnings("SELECT *, id FROM users").is_empty());
}

#[test]
fn test_select_star_inside_if_block_warns() {
    assert!(!star_warnings("IF 1 = 1\nBEGIN\n    SELECT * FROM users\nEND").is_empty());
}

#[test]
fn test_select_star_inside_while_warns() {
    assert!(!star_warnings("WHILE 1 = 1\nBEGIN\n    SELECT * FROM t\nEND").is_empty());
}

#[test]
fn test_select_star_inside_procedure_warns() {
    assert!(!star_warnings("CREATE PROCEDURE myproc AS BEGIN SELECT * FROM users END").is_empty());
}

#[test]
fn test_select_star_in_insert_select_warns() {
    assert!(!star_warnings("INSERT INTO t2 SELECT * FROM t1").is_empty());
}

#[test]
fn test_select_star_id_comma_star_warns() {
    assert!(!star_warnings("SELECT id, * FROM users").is_empty());
}

#[test]
fn test_select_distinct_star_warns() {
    assert!(!star_warnings("SELECT DISTINCT * FROM users").is_empty());
}

#[test]
fn test_select_top_star_warns() {
    assert!(!star_warnings("SELECT TOP 10 * FROM users").is_empty());
}

#[test]
fn test_select_distinct_star_with_table_warns() {
    assert!(!star_warnings("CREATE TABLE t (id INT)\nSELECT DISTINCT * FROM t").is_empty());
}

#[test]
fn test_select_star_in_create_view_warns() {
    assert!(!star_warnings("CREATE VIEW v AS SELECT * FROM users").is_empty());
}

#[test]
fn test_diagnose_empty_source() {
    assert!(diagnose(&make_analysis("")).is_empty());
}

#[test]
fn test_diagnose_empty_source_only_parse_errors() {
    assert!(diagnose(&make_analysis("")).is_empty());
}

#[test]
fn test_multiple_select_star_multiple_warnings() {
    assert_eq!(star_warnings("SELECT * FROM users\nSELECT * FROM orders").len(), 2);
}

#[test]
fn test_select_star_inside_trigger_warns() {
    let source = "CREATE TRIGGER tr_test ON users FOR INSERT AS\nBEGIN\n    SELECT * FROM users\nEND";
    assert!(!star_warnings(source).is_empty());
}

fn folds(source: &str) -> Vec<FoldingRange> {
    folding_ranges_with_analysis(&make_analysis(source), &block_comments(source))
}

fn count_region_folds(ranges: &[FoldingRange]) -> usize {
    ranges.iter().filter(|r| r.kind == Some(FoldingRangeKind::Region)).count()
}

fn outermost_region_fold(ranges: &[FoldingRange]) -> Option<&FoldingRange> {
    ranges.iter().filter(|r| r.kind == Some(FoldingRangeKind::Region)).min_by_key(|r| r.start_line)
}

#[test]
fn test_no_folds_single_line() {
    assert!(folds("SELECT * FROM users").is_empty());
}

#[test]
fn test_begin_end_fold() {
    let ranges = folds("BEGIN\n  SELECT 1;\n  SELECT 2;\nEND");
    assert_eq!(ranges.len(), 1);
    assert_eq!(ranges[0].start_line, 0);
    assert_eq!(ranges[0].end_line, 3);
    assert_eq!(ranges[0].kind, Some(FoldingRangeKind::Region));
}

#[test]
fn test_nested_begin_end() {
    assert_eq!(folds("BEGIN\n  BEGIN\n    SELECT 1;\n  END\nEND").len(), 2);
}

#[test]
fn test_comment_fold() {
    let ranges = folds("/* This is a\n   multi-line comment */\nSELECT 1");
    assert_eq!(ranges.len(), 1);
    assert_eq!(ranges[0].kind, Some(FoldingRangeKind::Comment));
}

#[test]
fn test_single_line_comment_no_fold() {
    let ranges = folds("/* single line */ SELECT 1");
    assert!(ranges.iter().all(|r| r.kind != Some(FoldingRangeKind::Comment)));
}

#[test]
fn test_ast_fold_if_else_no_begin() {
    assert!(count_region_folds(&folds("IF 1 = 1\n    SELECT 1\nELSE\n    SELECT 2")) >= 1);
}

#[test]
fn test_ast_fold_while_no_begin() {
    assert!(count_region_folds(&folds("WHILE @count < 10\n    SELECT @count")) >= 1);
}

#[test]
fn test_ast_fold_if_multiline() {
    assert!(count_region_folds(&folds("IF @x > 0\n    INSERT INTO t VALUES (@x)\n    DELETE FROM t WHERE id = @x")) >= 1);
}

#[test]
fn test_ast_fold_if_else_with_begin_extra_fold() {
    assert!(count_region_folds(&folds("IF 1 = 1\nBEGIN\n    SELECT 1\nEND\nELSE\nBEGIN\n    SELECT 2\nEND")) >= 3);
}

#[test]
fn test_if_else_outer_fold_covers_else_block_not_truncated() {
    let ranges = folds("IF 1 = 1\nBEGIN\n    SELECT 1\nEND\nELSE\nBEGIN\n    SELECT 2\nEND\nSELECT 99");
    let outer = ranges
        .iter()
        .find(|r| r.kind == Some(FoldingRangeKind::Region) && r.start_line == 0)
        .expect("outer IF region fold starting at line 0 should exist");
    assert!(outer.end_line >= 6, "got end_line={}", outer.end_line);
}

#[test]
fn test_ast_fold_preserves_comment_folds() {
    let ranges = folds("/* multi-line\n   comment */\nSELECT 1");
    assert_eq!(ranges.iter().filter(|r| r.kind == Some(FoldingRangeKind::Comment)).count(), 1);
}

#[test]
fn test_ast_fold_try_catch() {
    assert!(count_region_folds(&folds("BEGIN TRY\n    SELECT 1\nEND TRY\nBEGIN CATCH\n    SELECT -1\nEND CATCH")) >= 2);
}

#[test]
fn test_ast_fold_create_procedure() {
    assert!(count_region_folds(&folds("CREATE PROCEDURE sp_test\nAS\nBEGIN\n    SELECT 1\n    SELECT 2\nEND")) >= 1);
}

#[test]
fn test_ast_fold_single_line_if_not_folded() {
    assert_eq!(count_region_folds(&folds("IF 1 = 1 SELECT 1 ELSE SELECT 2")), 0);
}

#[test]
fn test_unmatched_begin_no_panic() {
    assert_eq!(count_region_folds(&folds("BEGIN\n  SELECT 1\n  SELECT 2")), 0);
}

#[test]
fn test_multiple_block_comments() {
    let ranges = folds("/* block one\n   line 2\n   line 3 */\nSELECT 1;\n/* block two\n   line 2 */");
    assert_eq!(ranges.iter().filter(|r| r.kind == Some(FoldingRangeKind::Comment)).count(), 2);
}

#[test]
fn test_ast_fold_nested_while_in_if() {
    let source = "IF 1 = 1\nBEGIN\n    WHILE @x < 10\n    BEGIN\n        SELECT @x\n        SET @x = @x + 1\n    END\nEND";
    assert!(count_region_folds(&folds(source)) >= 2);
}

#[test]
fn test_empty_source_no_folds() {
    assert!(folds("").is_empty());
}

#[test]
fn test_ast_fold_create_trigger() {
    assert!(count_region_folds(&folds("CREATE TRIGGER tr_test ON users FOR INSERT AS\nBEGIN\n    SELECT 1\n    SELECT 2\nEND")) >= 1);
}

#[test]
fn test_ast_fold_nested_while_in_trigger() {
    let source = "CREATE TRIGGER tr_test ON users FOR INSERT AS\nBEGIN\n    WHILE 1 = 1\n    BEGIN\n        SELECT 1\n    END\nEND";
    assert!(count_region_folds(&folds(source)) >= 2);
}

#[test]
fn test_ast_fold_nested_procedure_full() {
    let source = "CREATE PROCEDURE sp_nested @mode INT AS\nBEGIN\n    DECLARE @result INT\n\n    IF @mode = 1\n    BEGIN\n        WHILE @result < 10\n        BEGIN\n            SET @result = @result + 1\n        END\n    END\n    ELSE\n    BEGIN\n        BEGIN TRY\n            SELECT * FROM sysobjects\n        END TRY\n        BEGIN CATCH\n            RAISERROR('Error', 16, 1)\n        END CATCH\n    END\n\n    RETURN @result\nEND";
    assert!(count_region_folds(&folds(source)) >= 4);
}

#[test]
fn test_create_procedure_outer_fold_spans_full_body() {
    let ranges = folds("CREATE PROCEDURE sp_t AS\nBEGIN\n    SELECT 1\n    SELECT 2\nEND");
    let outer = outermost_region_fold(&ranges).expect("should have an outer region fold");
    assert_eq!(outer.start_line, 0);
    assert_eq!(outer.end_line, 4);
}

#[test]
fn test_if_without_begin_resolves_via_child_span_not_token_scan() {
    let ranges = folds("IF 1 = 1\n    SELECT 1\nELSE\n    SELECT 2");
    let outer = outermost_region_fold(&ranges).expect("IF should still fold via child span");
    assert_eq!(outer.start_line, 0);
    assert!(outer.end_line >= 1);
}

#[test]
fn test_while_without_begin_fold_spans_at_least_two_lines() {
    let ranges = folds("WHILE @count < 10\n    SELECT @count\n    SET @count = @count + 1");
    let outer = outermost_region_fold(&ranges).expect("WHILE should fold");
    assert_eq!(outer.start_line, 0);
    assert!(outer.end_line > outer.start_line);
}

#[test]
fn test_try_catch_outer_fold_ends_on_end_catch_line() {
    let ranges = folds("BEGIN TRY\n    SELECT 1\nEND TRY\nBEGIN CATCH\n    SELECT -1\nEND CATCH");
    let max_end = ranges
        .iter()
        .filter(|r| r.kind == Some(FoldingRangeKind::Region))
        .map(|r| r.end_line)
        .max()
        .expect("should have region folds");
    assert_eq!(max_end, 5);
}

#[test]
fn test_create_trigger_outer_fold_spans_full_body() {
    let ranges = folds("CREATE TRIGGER tr ON users FOR INSERT AS\nBEGIN\n    SELECT 1\n    SELECT 2\nEND");
    let outer = outermost_region_fold(&ranges).expect("trigger should fold");
    assert_eq!(outer.start_line, 0);
    assert_eq!(outer.end_line, 4);
}

#[test]
fn test_create_procedure_fold_count_bounded() {
    assert!(count_region_folds(&folds("CREATE PROCEDURE sp_t AS\nBEGIN\n    SELECT 1\nEND")) <= 3);
}

#[test]
fn code_lenses_one_per_table_proc_view_definition() {
    let src = "CREATE TABLE t1 (id INT)\nCREATE VIEW v1 AS SELECT * FROM t1\nCREATE PROC p1 AS SELECT * FROM t1";
    let lenses = code_lenses(&make_analysis(src), &test_uri());
    assert_eq!(lenses.len(), 3);
    assert!(lenses.iter().all(|l| l.command.is_none()));
    assert!(lenses.iter().all(|l| l.data.is_some()));
}

#[test]
fn code_lenses_empty_when_no_definitions() {
    assert!(code_lenses(&make_analysis("SELECT 1"), &test_uri()).is_empty());
}

fn first_lens_title(src: &str) -> String {
    let analysis = make_analysis(src);
    let lens = code_lenses(&analysis, &test_uri()).into_iter().next().expect("one table lens");
    let resolved = resolve_lens(lens, &analysis).expect("resolves");
    resolved.command.expect("command set after resolve").title
}

#[test]
fn resolve_lens_counts_document_local_usages() {
    let title = first_lens_title("CREATE TABLE t (id INT)\nSELECT * FROM t\nINSERT INTO t VALUES (1)");
    assert!(title.contains("2 references"), "expected 2 references, got: {title}");
}

#[test]
fn resolve_lens_singular_for_one_usage() {
    assert_eq!(first_lens_title("CREATE TABLE t (id INT)\nSELECT * FROM t"), "1 reference");
}

#[test]
fn resolve_lens_zero_usages_shows_zero() {
    assert_eq!(first_lens_title("CREATE TABLE lonely (id INT)"), "0 references");
}

#[test]
fn resolve_lens_returns_none_without_data() {
    let analysis = make_analysis("CREATE TABLE t (id INT)");
    let lens = CodeLens { range: Range::new(Position::new(0, 0), Position::new(0, 1)), command: None, data: None };
    assert!(resolve_lens(lens, &analysis).is_none());
}

#[test]
fn lens_uri_extracts_embedded_uri() {
    let analysis = make_analysis("CREATE TABLE t (id INT)");
    let lens = code_lenses(&analysis, &test_uri()).into_iter().next().unwrap();
    assert_eq!(lens_uri(&lens).as_deref(), Some("file:///test.sql"));
}

#[test]
fn lens_uri_none_for_missing_data() {
    let lens = CodeLens { range: Range::new(Position::new(0, 0), Position::new(0, 0)), command: None, data: None };
    assert!(lens_uri(&lens).is_none());
}

#[test]
fn test_create_table_symbol() {
    let source = "CREATE TABLE users (id INT, name VARCHAR(100))";
    let symbols = document_symbols(source, &parse(source)).expect("symbols");
    assert_eq!(symbols.len(), 1);
    assert_eq!(symbols[0].name, "users");
    assert_eq!(symbols[0].kind, SymbolKind::Class);
}

#[test]
fn test_select_symbol() {
    let source = "SELECT * FROM users";
    let symbols = document_symbols(source, &parse(source)).expect("symbols");
    assert_eq!(symbols.len(), 1);
    assert_eq!(symbols[0].name, "SELECT");
}

#[test]
fn test_multiple_symbols() {
    let source = "CREATE TABLE t1 (id INT); SELECT * FROM t1";
    let symbols = document_symbols(source, &parse(source)).expect("symbols");
    assert_eq!(symbols.len(), 2);
}

#[test]
fn test_no_symbols_for_invalid() {
    let source = "INVALID SQL !!!";
    let result = document_symbols(source, &parse(source));
    assert!(result.is_none() || result.unwrap().is_empty());
}

fn pos(line: u32, character: u32) -> Position {
    Position::new(line, character)
}

fn def_ranges(source: &str, line: u32, character: u32) -> Vec<Range> {
    definition_ranges_with_analysis(&make_analysis(source), pos(line, character))
}

#[test]
fn test_definition_with_analysis_variable() {
    let ranges = def_ranges("DECLARE @count INT\nSET @count = 1\nSELECT @count", 1, 5);
    assert_eq!(ranges.len(), 1);
    assert_eq!(ranges[0].start.line, 0);
}

#[test]
fn test_definition_with_analysis_table() {
    let ranges = def_ranges("CREATE TABLE users (id INT)\nSELECT * FROM users", 1, 15);
    assert_eq!(ranges.len(), 1);
    assert_eq!(ranges[0].start.line, 0);
}

#[test]
fn test_definition_with_analysis_empty_source() {
    assert!(def_ranges("", 0, 0).is_empty());
}

#[test]
fn test_definition_with_analysis_no_token_at_position() {
    assert!(def_ranges("SELECT  FROM t", 0, 7).is_empty());
}

#[test]
fn test_definition_with_analysis_procedure() {
    assert_eq!(def_ranges("CREATE PROCEDURE my_proc AS BEGIN RETURN 1 END", 0, 18).len(), 1);
}

#[test]
fn test_definition_with_analysis_index() {
    assert_eq!(def_ranges("CREATE INDEX idx_name ON users (id)", 0, 14).len(), 1);
}

#[test]
fn test_definition_with_analysis_variable_in_while() {
    let source = "DECLARE @count INT\nWHILE @count < 10 BEGIN\n  SET @count = @count + 1\nEND";
    assert_eq!(def_ranges(source, 1, 7).len(), 1);
}

#[test]
fn test_definition_with_analysis_view() {
    let ranges = def_ranges("CREATE VIEW active_users AS SELECT * FROM users\nSELECT * FROM active_users", 1, 17);
    assert_eq!(ranges.len(), 1, "Should find view definition");
    assert_eq!(ranges[0].start.line, 0, "View definition should be on line 0");
}

#[test]
fn test_definition_with_analysis_trigger() {
    let ranges = def_ranges("CREATE TRIGGER tr_test ON users FOR INSERT AS BEGIN SELECT 1 END", 0, 18);
    assert_eq!(ranges.len(), 1, "Should find trigger definition");
}

#[test]
fn test_definition_case_insensitive() {
    let ranges = def_ranges("CREATE TABLE Users (id INT)\nSELECT * FROM users", 1, 15);
    assert_eq!(ranges.len(), 1, "Case-insensitive table lookup should work");
}

#[test]
fn test_definition_multiple_object_types() {
    let source = "CREATE TABLE t (id INT)\nCREATE VIEW v AS SELECT * FROM t\nCREATE INDEX idx ON t (id)";
    let analysis = make_analysis(source);
    assert!(
        !definition_ranges_with_analysis(&analysis, pos(1, 31)).is_empty(),
        "Should find table definition from view's FROM clause"
    );
    assert!(!definition_ranges_with_analysis(&analysis, pos(1, 12)).is_empty(), "Should find view definition");
}

fn index_background(store: &mut SymbolStore, uri: &str, source: &str) {
    store.upsert(uri, &make_analysis(source), DocumentSource::Background);
}

fn cross_defs(store: &SymbolStore, source: &str, line: u32, character: u32) -> Vec<Location> {
    definition_locations(store, &make_analysis(source), &"file:///cur.sql".to_string(), pos(line, character))
}

#[test]
fn test_cross_def_variable_is_document_local() {
    let mut store = SymbolStore::new();
    index_background(&mut store, "file:///other.sql", "DECLARE @count INT");
    let locs = cross_defs(&store, "DECLARE @count INT\nSET @count = 1\nSELECT @count", 2, 8);
    assert_eq!(locs.len(), 1, "variable resolves doc-locally only");
    assert_eq!(locs[0].uri, "file:///cur.sql");
    assert_eq!(locs[0].range.start.line, 0, "points at DECLARE line");
}

#[test]
fn test_cross_def_variable_not_in_store_when_undeclared() {
    let mut store = SymbolStore::new();
    index_background(&mut store, "file:///other.sql", "DECLARE @ghost INT");
    assert!(cross_defs(&store, "SELECT @ghost", 0, 8).is_empty(), "undeclared variable must not cross-resolve");
}

#[test]
fn test_cross_def_table_from_other_file() {
    let mut store = SymbolStore::new();
    index_background(&mut store, "file:///schema.sql", "CREATE TABLE remote_table (id INT)");
    let locs = cross_defs(&store, "SELECT * FROM remote_table", 0, 16);
    assert_eq!(locs.len(), 1, "should resolve cross-file table");
    assert_eq!(locs[0].uri, "file:///schema.sql");
}

#[test]
fn test_cross_def_procedure_from_other_file() {
    let mut store = SymbolStore::new();
    index_background(&mut store, "file:///procs.sql", "CREATE PROCEDURE do_thing AS BEGIN SELECT 1 END");
    let locs = cross_defs(&store, "EXEC do_thing", 0, 7);
    assert_eq!(locs.len(), 1, "should resolve cross-file procedure");
    assert_eq!(locs[0].uri, "file:///procs.sql");
}

#[test]
fn test_cross_def_view_from_other_file() {
    let mut store = SymbolStore::new();
    index_background(&mut store, "file:///views.sql", "CREATE VIEW v_report AS SELECT 1");
    let locs = cross_defs(&store, "SELECT * FROM v_report", 0, 16);
    assert_eq!(locs.len(), 1, "should resolve cross-file view");
    assert_eq!(locs[0].uri, "file:///views.sql");
}

#[test]
fn test_cross_def_nonexistent_returns_empty() {
    let store = SymbolStore::new();
    assert!(cross_defs(&store, "SELECT * FROM nowhere", 0, 16).is_empty());
}

#[test]
fn test_cross_def_incomplete_sql_graceful() {
    let mut store = SymbolStore::new();
    index_background(&mut store, "file:///s.sql", "CREATE TABLE un (id INT)");
    let locs = cross_defs(&store, "SELECT * FROM un", 0, 15);
    assert_eq!(locs.len(), 1);
    assert_eq!(locs[0].uri, "file:///s.sql");
}

#[test]
fn test_cross_def_empty_source_returns_empty() {
    let store = SymbolStore::new();
    assert!(cross_defs(&store, "", 0, 0).is_empty());
}

#[test]
fn test_cross_def_no_token_at_position_returns_empty() {
    let store = SymbolStore::new();
    assert!(cross_defs(&store, "SELECT  FROM t", 0, 7).is_empty());
}

#[test]
fn test_cross_def_document_local_takes_precedence_over_store() {
    let mut store = SymbolStore::new();
    index_background(&mut store, "file:///bg.sql", "CREATE TABLE dup (id INT)");
    let locs = cross_defs(&store, "CREATE TABLE dup (id INT)\nSELECT * FROM dup", 1, 16);
    assert_eq!(locs.len(), 1);
    assert_eq!(locs[0].uri, "file:///cur.sql");
}

#[test]
fn test_cross_def_aggregates_multiple_store_entries() {
    let mut store = SymbolStore::new();
    index_background(&mut store, "file:///a.sql", "CREATE TABLE shared (id INT)");
    index_background(&mut store, "file:///b.sql", "CREATE TABLE shared (id INT)");
    let locs = cross_defs(&store, "SELECT * FROM shared", 0, 16);
    assert_eq!(locs.len(), 2);
    let uris: Vec<String> = locs.iter().map(|l| l.uri.clone()).collect();
    assert!(uris.contains(&"file:///a.sql".to_string()));
    assert!(uris.contains(&"file:///b.sql".to_string()));
}

#[test]
fn test_cross_def_case_insensitive() {
    let mut store = SymbolStore::new();
    index_background(&mut store, "file:///s.sql", "CREATE TABLE users (id INT)");
    assert_eq!(cross_defs(&store, "SELECT * FROM Users", 0, 16).len(), 1);
}

#[test]
fn test_definition_with_analysis_local_temp_table() {
    let analysis = make_analysis("CREATE TABLE #temp (id INT)\nSELECT * FROM #temp");
    let ranges = definition_ranges_with_analysis(&analysis, pos(1, 14));
    assert_eq!(ranges.len(), 1, "local #temp definition should resolve");
    assert_eq!(ranges[0].start.line, 0, "should jump to CREATE TABLE line");
    let (tok, _) = analysis.find_token_at_position(pos(1, 14)).expect("token at #temp");
    assert_eq!(tok.kind, TokenKind::TempTable);
    assert_eq!(tok.text, "#temp");
}

#[test]
fn test_definition_with_analysis_global_temp_table() {
    let analysis = make_analysis("CREATE TABLE ##global (id INT)\nSELECT * FROM ##global");
    let ranges = definition_ranges_with_analysis(&analysis, pos(1, 15));
    assert_eq!(ranges.len(), 1, "global ##global definition should resolve");
    assert_eq!(ranges[0].start.line, 0);
    let (tok, _) = analysis.find_token_at_position(pos(1, 15)).expect("token at ##global");
    assert_eq!(tok.kind, TokenKind::GlobalTempTable);
    assert_eq!(tok.text, "##global");
}

#[test]
fn test_definition_with_analysis_temp_table_case_insensitive() {
    let ranges = def_ranges("CREATE TABLE #Temp (id INT)\nSELECT * FROM #temp", 1, 14);
    assert_eq!(ranges.len(), 1, "case-insensitive #temp lookup");
    assert_eq!(ranges[0].start.line, 0);
}

#[test]
fn test_definition_with_analysis_undefined_temp_table_returns_empty() {
    assert!(def_ranges("SELECT * FROM #not_defined", 0, 14).is_empty(), "undefined #temp must not crash");
}

fn cross_refs(
    store: &SymbolStore,
    current: &DocumentAnalysis,
    others: &[(&str, &DocumentAnalysis)],
    line: u32,
    character: u32,
    include_declaration: bool,
) -> Vec<Location> {
    let mut docs: Vec<(String, &DocumentAnalysis)> = vec![("file:///cur.sql".to_string(), current)];
    for (u, a) in others {
        docs.push((u.to_string(), *a));
    }
    reference_locations(store, current, &"file:///cur.sql".to_string(), pos(line, character), include_declaration, &docs)
}

#[test]
fn test_cross_ref_variable_is_document_local() {
    let current = make_analysis("DECLARE @count INT\nSET @count = 1\nSELECT @count");
    let other = make_analysis("DECLARE @count INT\nSET @count = 99");
    let mut store = SymbolStore::new();
    index_background(&mut store, "file:///other.sql", "DECLARE @count INT");
    let locs = cross_refs(&store, &current, &[("file:///other.sql", &other)], 2, 8, true);
    assert!(locs.iter().all(|l| l.uri == "file:///cur.sql"), "variable must not cross-resolve");
    assert_eq!(locs.len(), 3, "DECLARE + SET + SELECT in current doc");
}

#[test]
fn test_cross_ref_table_usages_across_files() {
    let cur_src = "CREATE TABLE shared_tbl (id INT)\nSELECT * FROM shared_tbl";
    let current = make_analysis(cur_src);
    let other = make_analysis("SELECT * FROM shared_tbl WHERE id = 1");
    let mut store = SymbolStore::new();
    index_background(&mut store, "file:///cur.sql", cur_src);
    let locs = cross_refs(&store, &current, &[("file:///other.sql", &other)], 0, 17, true);
    let uris: Vec<String> = locs.iter().map(|l| l.uri.clone()).collect();
    assert!(uris.contains(&"file:///cur.sql".to_string()), "should include current-doc usages");
    assert!(uris.contains(&"file:///other.sql".to_string()), "should include cross-file usage");
}

#[test]
fn test_cross_ref_include_declaration_adds_definition_from_store() {
    let current = make_analysis("SELECT * FROM remote_tbl");
    let def = make_analysis("CREATE TABLE remote_tbl (id INT)");
    let mut store = SymbolStore::new();
    index_background(&mut store, "file:///schema.sql", "CREATE TABLE remote_tbl (id INT)");
    let locs = cross_refs(&store, &current, &[("file:///schema.sql", &def)], 0, 16, true);
    let def_locs: Vec<&Location> = locs.iter().filter(|l| l.uri == "file:///schema.sql").collect();
    assert!(!def_locs.is_empty(), "include_declaration should add cross-file CREATE definition");
}

#[test]
fn test_cross_ref_exclude_declaration_drops_definition() {
    let current = make_analysis("SELECT * FROM remote_tbl");
    let def = make_analysis("CREATE TABLE remote_tbl (id INT)");
    let mut store = SymbolStore::new();
    index_background(&mut store, "file:///schema.sql", "CREATE TABLE remote_tbl (id INT)");
    let locs = cross_refs(&store, &current, &[("file:///schema.sql", &def)], 0, 16, false);
    let schema_def: Vec<&Location> = locs.iter().filter(|l| l.uri == "file:///schema.sql").collect();
    assert!(schema_def.is_empty(), "include_declaration=false must not include cross-file definition");
    assert!(locs.iter().any(|l| l.uri == "file:///cur.sql"), "current-doc usage should remain");
}

#[test]
fn test_cross_ref_nonexistent_returns_empty() {
    let current = make_analysis("SELECT * FROM nowhere");
    let other = make_analysis("SELECT * FROM real_table");
    let store = SymbolStore::new();
    let locs = cross_refs(&store, &current, &[("file:///other.sql", &other)], 0, 16, true);
    assert_eq!(locs.len(), 1, "only the cursor occurrence should match");
    assert_eq!(locs[0].uri, "file:///cur.sql");
    assert!(locs.iter().all(|l| l.uri == "file:///cur.sql"), "unrelated files must not contribute references");
}

#[test]
fn test_cross_ref_case_insensitive() {
    let current = make_analysis("SELECT * FROM Users");
    let other = make_analysis("INSERT INTO users VALUES (1)");
    let mut store = SymbolStore::new();
    index_background(&mut store, "file:///cur.sql", "CREATE TABLE Users (id INT)");
    let locs = cross_refs(&store, &current, &[("file:///other.sql", &other)], 0, 16, true);
    let uris: Vec<String> = locs.iter().map(|l| l.uri.clone()).collect();
    assert!(uris.contains(&"file:///other.sql".to_string()), "case-insensitive cross-file usage");
}

#[test]
fn test_cross_ref_procedure_exec_usage() {
    let current = make_analysis("CREATE PROCEDURE my_proc AS BEGIN SELECT 1 END");
    let other = make_analysis("EXEC my_proc");
    let mut store = SymbolStore::new();
    index_background(&mut store, "file:///cur.sql", "CREATE PROCEDURE my_proc AS BEGIN SELECT 1 END");
    let locs = cross_refs(&store, &current, &[("file:///caller.sql", &other)], 0, 18, true);
    let uris: Vec<String> = locs.iter().map(|l| l.uri.clone()).collect();
    assert!(uris.contains(&"file:///caller.sql".to_string()), "EXEC usage in other file should be collected");
}

#[test]
fn test_cross_ref_no_token_at_position_returns_empty() {
    let current = make_analysis("SELECT  FROM t");
    let store = SymbolStore::new();
    assert!(cross_refs(&store, &current, &[], 0, 7, true).is_empty());
}

#[test]
fn test_cross_ref_empty_source_returns_empty() {
    let current = make_analysis("");
    let store = SymbolStore::new();
    assert!(cross_refs(&store, &current, &[], 0, 0, true).is_empty());
}

#[test]
fn test_cross_ref_incomplete_sql_graceful() {
    let current = make_analysis("SELECT * FROM un");
    let mut store = SymbolStore::new();
    index_background(&mut store, "file:///s.sql", "CREATE TABLE un (id INT)");
    let locs = cross_refs(&store, &current, &[], 0, 15, true);
    assert!(!locs.is_empty(), "graceful: should still return current usage");
    assert!(locs.iter().any(|l| l.uri == "file:///cur.sql"), "current-doc usage present");
}

#[test]
fn test_cross_ref_definition_in_current_doc_not_duplicated() {
    let cur_src = "CREATE TABLE dup (id INT)\nSELECT * FROM dup";
    let current = make_analysis(cur_src);
    let mut store = SymbolStore::new();
    index_background(&mut store, "file:///cur.sql", cur_src);
    let locs = cross_refs(&store, &current, &[], 1, 16, true);
    let line0_count = locs.iter().filter(|l| l.uri == "file:///cur.sql" && l.range.start.line == 0).count();
    assert_eq!(line0_count, 1, "current-doc definition must not duplicate");
}

fn hover_text(source: &str, line: u32, character: u32) -> Option<String> {
    hover_with_analysis(&make_analysis(source), pos(line, character)).map(|h| h.contents)
}

#[test]
fn test_hover_index_shows_table_and_columns_via_source() {
    let source = "CREATE TABLE users (id INT, name VARCHAR(50))\nCREATE INDEX idx_name ON users (name)";
    let value = hover_text(source, 1, 13).expect("Should return hover for index name");
    assert!(value.contains("Index"), "Should mention Index: {}", value);
    assert!(value.contains("users"), "Should mention table: {}", value);
}

#[test]
fn test_hover_index_with_analysis() {
    let source = "CREATE TABLE users (id INT, name VARCHAR(50))\nCREATE INDEX idx_name ON users (name)";
    let value = hover_text(source, 1, 13).expect("Should return hover for index name");
    assert!(value.contains("Index"), "Should mention Index: {}", value);
    assert!(value.contains("users"), "Should mention table name: {}", value);
    assert!(value.contains("name"), "Should mention indexed column: {}", value);
}

#[test]
fn test_hover_index_on_referenced_table() {
    let source = "CREATE TABLE users (id INT, email VARCHAR(100))\nCREATE INDEX idx_email ON users (email)";
    let value = hover_text(source, 1, 13).expect("hover");
    assert!(value.contains("Index"), "Should mention Index: {}", value);
    assert!(value.contains("email"), "Should mention indexed column: {}", value);
    assert!(value.contains("users"), "Should mention table: {}", value);
}

#[test]
fn test_hover_column_from_select() {
    let source = "CREATE TABLE users (id INT, name VARCHAR(50))\nSELECT id, name FROM users";
    let value = hover_text(source, 1, 7).expect("Should resolve column 'id'");
    assert!(value.contains("Column"), "Should be a column hover: {}", value);
    assert!(value.contains("INT"), "Should show data type: {}", value);
    assert!(value.contains("users"), "Should mention table: {}", value);
}

#[test]
fn test_hover_column_from_where() {
    let source = "CREATE TABLE orders (id INT, total DECIMAL(10,2) NOT NULL)\nSELECT * FROM orders WHERE total > 100";
    let value = hover_text(source, 1, 30).expect("Should resolve column 'total'");
    assert!(value.contains("Column"), "Should be a column hover: {}", value);
    assert!(value.contains("NOT NULL"), "Should show nullable: {}", value);
}

#[test]
fn test_hover_column_identity() {
    let source = "CREATE TABLE t (id INT IDENTITY, val INT)\nSELECT id FROM t";
    let value = hover_text(source, 1, 7).expect("Should resolve identity column");
    assert!(value.contains("IDENTITY"), "Should show IDENTITY: {}", value);
}

#[test]
fn test_hover_column_in_insert() {
    let source = "CREATE TABLE t (a INT, b INT)\nINSERT INTO t (a) VALUES (1)";
    let value = hover_text(source, 1, 15).expect("Should resolve column in INSERT");
    assert!(value.contains("Column"), "Should be a column hover: {}", value);
}

#[test]
fn test_hover_nonexistent_column_returns_none() {
    let source = "CREATE TABLE t (id INT)\nSELECT nonexistent FROM t";
    if let Some(value) = hover_text(source, 1, 7) {
        assert!(!value.contains("Column"), "Nonexistent column should not resolve as column: {}", value);
    }
}

#[test]
fn test_hover_column_inside_trigger_body() {
    let source = "CREATE TABLE users (id INT, name VARCHAR(100))\n\
                  CREATE TRIGGER tr_test ON users FOR INSERT AS\n\
                  BEGIN\n\
                      SELECT id FROM users\n\
                  END";
    let value = hover_text(source, 3, 18).expect("Hover over column inside trigger body should return hover info");
    assert!(value.contains("id"), "Hover inside trigger should show column name");
}

#[test]
fn test_hover_trigger_shows_info() {
    let source = "CREATE TRIGGER tr_test ON users FOR INSERT, UPDATE AS BEGIN SELECT 1 END";
    let value = hover_text(source, 0, 18).expect("Hover on trigger name should return info");
    assert!(value.contains("Trigger"), "Should show Trigger label");
    assert!(value.contains("users"), "Should show target table name");
}

fn hints(source: &str, range: Option<Range>, config: &InlayConfig) -> Vec<InlayHint> {
    inlay_hints(&make_analysis(source), range, config)
}

fn param_hints(hs: &[InlayHint]) -> Vec<&InlayHint> {
    hs.iter().filter(|h| h.kind == Some(InlayHintKind::Parameter)).collect()
}

#[test]
fn declare_single_variable_emits_one_type_hint_at_name_end() {
    let hs = hints("DECLARE @count INT", None, &InlayConfig::default());
    assert_eq!(hs.len(), 1, "exactly one hint: {:?}", hs.len());
    let hint = &hs[0];
    assert_eq!(hint.label, ": INT");
    assert_eq!(hint.kind, Some(InlayHintKind::Type));
    assert_eq!(hint.padding_left, Some(true));
    assert_eq!(hint.padding_right, None);
    assert_eq!(hint.position, pos(0, 14));
}

#[test]
fn declare_multiple_variables_emits_display_formatted_type_labels() {
    let hs = hints("DECLARE @x VARCHAR(50), @d DECIMAL(10,2)", None, &InlayConfig::default());
    assert_eq!(hs.len(), 2, "one hint per variable");
    let labels: Vec<&str> = hs.iter().map(|h| h.label.as_str()).collect();
    assert!(labels.contains(&": VARCHAR(50)"), "labels: {labels:?}");
    assert!(labels.contains(&": DECIMAL(10,2)"), "labels: {labels:?}");
    assert!(hs.iter().all(|h| h.kind == Some(InlayHintKind::Type)));
}

#[test]
fn exec_positional_args_with_in_document_proc_signature_emits_param_hints() {
    let hs = hints("CREATE PROC myproc @a INT, @b INT AS\nSELECT 1\nEXEC myproc 10, 20", None, &InlayConfig::default());
    let ps = param_hints(&hs);
    assert_eq!(ps.len(), 2, "param hints");
    assert_eq!(ps[0].label, "@a:");
    assert_eq!(ps[1].label, "@b:");
    assert_eq!(ps[0].padding_right, Some(true));
    assert_eq!(ps[0].padding_left, None);
}

#[test]
fn exec_named_args_emit_no_param_hints() {
    let src = "CREATE PROC myproc @a INT, @b INT AS\nSELECT 1\nEXEC myproc @a = 10, @b = 20";
    let hs = hints(src, None, &InlayConfig::default());
    assert!(param_hints(&hs).is_empty(), "named args must not duplicate the in-source name");
}

#[test]
fn config_disable_variable_types_suppresses_type_hints() {
    let cfg = InlayConfig { enable_variable_types: false, enable_parameter_names: true };
    let hs = hints("DECLARE @count INT", None, &cfg);
    assert!(hs.iter().all(|h| h.kind != Some(InlayHintKind::Type)), "no TYPE hints when disabled");
    assert!(hs.is_empty(), "no hints at all");
}

#[test]
fn config_disable_parameter_names_suppresses_param_hints() {
    let cfg = InlayConfig { enable_variable_types: true, enable_parameter_names: false };
    let hs = hints("CREATE PROC myproc @a INT AS\nSELECT 1\nEXEC myproc 10", None, &cfg);
    assert!(hs.iter().all(|h| h.kind != Some(InlayHintKind::Parameter)), "no PARAMETER hints when disabled");
}

#[test]
fn empty_or_no_declare_document_emits_nothing() {
    assert!(hints("", None, &InlayConfig::default()).is_empty());
    assert!(hints("SELECT 1\nFROM t", None, &InlayConfig::default()).is_empty());
    assert!(hints("EXEC unknown_proc 1, 2", None, &InlayConfig::default()).is_empty());
}

#[test]
fn range_filter_excludes_hints_outside_viewport() {
    let src = "DECLARE @a INT\ndeclare @b INT";
    let full = Range::new(pos(0, 0), pos(10, 0));
    assert_eq!(hints(src, Some(full), &InlayConfig::default()).len(), 2, "both within full range");
    let line0_only = Range::new(pos(0, 0), pos(1, 0));
    let filtered = hints(src, Some(line0_only), &InlayConfig::default());
    assert_eq!(filtered.len(), 1, "only line-0 hint survives");
    assert_eq!(filtered[0].position.line, 0);
}

#[test]
fn broken_span_guard_skips_emission() {
    let src = "DECLARE @broken INT";
    let var = VariableDeclaration {
        name: Ident { name: "@broken".to_string(), span: Span { start: 8, end: 0 } },
        data_type: "INT".to_string(),
    };
    let stmt = Statement::Declare { variables: vec![var], span: Span { start: 0, end: 0 } };
    let table = SymbolTableBuilder::build(src, &parse(src));
    let patched = DocumentAnalysis::from_parts(src.to_string(), lex(src), vec![stmt], Vec::new(), table);
    let hs = inlay_hints(&patched, None, &InlayConfig::default());
    assert!(hs.is_empty(), "broken span (end < start) must not emit a hint");
}

#[test]
fn exec_more_positional_args_than_params_skips_excess() {
    let hs = hints("CREATE PROC myproc @a INT AS\nSELECT 1\nEXEC myproc 10, 20", None, &InlayConfig::default());
    let ps = param_hints(&hs);
    assert_eq!(ps.len(), 1, "excess arg skipped");
    assert_eq!(ps[0].label, "@a:");
}

#[test]
fn exec_case_insensitive_procedure_lookup() {
    let hs = hints("CREATE PROC myproc @x INT AS\nSELECT 1\nEXEC MYPROC 5", None, &InlayConfig::default());
    assert_eq!(param_hints(&hs).len(), 1, "case-insensitive lookup");
}

#[test]
fn type_hint_carries_variable_type_data() {
    let hs = hints("DECLARE @count INT", None, &InlayConfig::default());
    match hs[0].data.clone().expect("data present") {
        InlayHintData::VariableType { type_label } => assert_eq!(type_label, "INT"),
        InlayHintData::ParameterName { .. } => panic!("expected VariableType"),
    }
}

#[test]
fn parameter_hint_carries_parameter_name_data() {
    let hs = hints("CREATE PROC p @p1 INT AS\nSELECT 1\nEXEC p 1", None, &InlayConfig::default());
    let hint = hs.iter().find(|h| h.kind == Some(InlayHintKind::Parameter)).expect("parameter hint present");
    match hint.data.clone().expect("data present") {
        InlayHintData::ParameterName { name } => assert_eq!(name, "@p1"),
        InlayHintData::VariableType { .. } => panic!("expected ParameterName"),
    }
}


fn semantic_types(source: &str) -> Vec<u32> {
    semantic_tokens_full_with_analysis(&make_analysis(source)).data.iter().map(|t| t.token_type).collect()
}

#[test]
fn test_table_name_gets_class_token() {
    let types = semantic_types("CREATE TABLE users (id INT)\nSELECT * FROM users");
    assert!(types.contains(&9), "Table name 'users' should be highlighted as CLASS (type 9), got {types:?}");
}

#[test]
fn test_procedure_name_gets_function_token() {
    let types = semantic_types("CREATE PROCEDURE my_proc AS BEGIN RETURN 1 END");
    assert!(types.contains(&2), "Procedure name 'my_proc' should be highlighted as FUNCTION (type 2)");
}

#[test]
fn test_plain_select_list_identifier_not_highlighted_as_class() {
    let types = semantic_types("SELECT my_column");
    assert!(!types.contains(&9), "A bare SELECT-list column should NOT get CLASS token; got {types:?}");
}

#[test]
fn test_range_tokens_basic() {
    let analysis = make_analysis("CREATE TABLE t (id INT)\nSELECT * FROM t");
    let tokens = semantic_tokens_range_with_analysis(&analysis, Range::new(pos(1, 0), pos(1, 20)));
    assert!(!tokens.data.is_empty(), "Range tokens should not be empty for SELECT line");
}

#[test]
fn test_range_tokens_empty_range() {
    let analysis = make_analysis("SELECT * FROM t");
    let tokens = semantic_tokens_range_with_analysis(&analysis, Range::new(pos(5, 0), pos(5, 10)));
    assert!(tokens.data.is_empty());
}

#[test]
fn test_view_name_gets_class_token() {
    assert!(semantic_types("CREATE VIEW my_view AS SELECT 1").contains(&9), "View name should get CLASS semantic token");
}

#[test]
fn test_keyword_tokens_present() {
    assert!(semantic_types("SELECT * FROM t").contains(&0), "Keywords should get KEYWORD semantic token");
}

#[test]
fn test_empty_source_no_tokens() {
    assert!(semantic_types("").is_empty());
}

#[test]
fn test_variable_gets_variable_token() {
    assert!(
        semantic_types("DECLARE @count INT\nSET @count = 1").contains(&6),
        "Local variable @count should get VARIABLE semantic token (type 6)"
    );
}

#[test]
fn test_datatype_gets_type_token() {
    assert!(semantic_types("DECLARE @x INT").contains(&1), "INT data type should get TYPE semantic token (type 1)");
}

#[test]
fn test_range_tokens_intersecting_boundary() {
    let analysis = make_analysis("SELECT * FROM t WHERE id = 1");
    let tokens = semantic_tokens_range_with_analysis(&analysis, Range::new(pos(0, 9), pos(0, 16)));
    assert!(!tokens.data.is_empty(), "FROM and t should be in the range");
    assert!(tokens.data.iter().any(|t| t.token_type == 0), "FROM keyword should get KEYWORD token in range");
}

#[test]
fn test_local_variable_classified() {
    assert!(
        semantic_types("DECLARE @count INT\nSET @count = 1").contains(&6),
        "Local variable @count should be classified as VARIABLE (type 6)"
    );
}

#[test]
fn test_table_reference_in_from_clause_classified() {
    assert!(
        semantic_types("CREATE TABLE users (id INT)\nSELECT * FROM users").contains(&9),
        "Table reference 'users' in FROM clause should be classified as CLASS (type 9)"
    );
}

#[test]
fn test_function_call_classified() {
    assert!(
        semantic_types("SELECT SUBSTRING(name, 1, 10) FROM users").contains(&2),
        "Function call 'SUBSTRING' should be classified as FUNCTION (type 2)"
    );
}

#[test]
fn test_unknown_function_call_still_function() {
    assert!(
        semantic_types("SELECT my_weird_func(col) FROM t").contains(&2),
        "Unknown function-call name should still be FUNCTION (type 2)"
    );
}

#[test]
fn test_plain_column_not_misclassified_as_function() {
    assert!(!semantic_types("SELECT name FROM users").contains(&2), "Plain column 'name' must not be highlighted as FUNCTION");
}

#[test]
fn test_join_table_reference_classified() {
    assert!(
        semantic_types("SELECT a.x FROM t1 a JOIN t2 b ON a.x = b.x").contains(&9),
        "JOIN table references t1/t2 should be classified as CLASS (type 9)"
    );
}

#[test]
fn test_insert_target_table_classified() {
    assert!(
        semantic_types("CREATE TABLE users (id INT)\nINSERT INTO users VALUES (1)").contains(&9),
        "INSERT target table 'users' should be classified as CLASS (type 9)"
    );
}

#[test]
fn test_update_delete_table_classified() {
    assert!(
        semantic_types("CREATE TABLE users (id INT)\nUPDATE users SET id = 1\nDELETE FROM users").contains(&9),
        "UPDATE/DELETE target table 'users' should be classified as CLASS (type 9)"
    );
}

#[test]
fn test_parse_error_falls_back_to_token_level() {
    let types = semantic_types("CREATE UNIQUE INDEX idx ON t (c)\nDECLARE @count INT");
    assert!(!types.is_empty(), "Parse-error source should still produce token-level semantic tokens");
    assert!(types.contains(&0), "Keyword tokens should still be classified under parse-error fallback");
    assert!(types.contains(&6), "LocalVar @count should still be classified as VARIABLE under parse-error fallback");
}

fn first_statement<'a>(a: &'a DocumentAnalysis, pred: fn(&Statement) -> bool) -> &'a Statement {
    a.statements.iter().find(|s| pred(s)).expect("fixture statement")
}

#[test]
fn resolve_span_end_fallback_finds_matching_end_for_simple_block() {
    let analysis = make_analysis("BEGIN SELECT 1 END");
    let end = resolve_span_end_fallback(0, &analysis);
    assert!(end.is_some(), "should find END token");
    assert!(end.unwrap() <= analysis.source.len(), "end offset in bounds");
}

#[test]
fn resolve_span_end_fallback_handles_nested_begin_end() {
    let analysis = make_analysis("BEGIN BEGIN SELECT 1 END END");
    let end = resolve_span_end_fallback(0, &analysis).expect("should resolve nested");
    assert_eq!(end, analysis.source.len());
}

#[test]
fn resolve_span_end_fallback_returns_none_when_no_end() {
    let analysis = make_analysis("BEGIN SELECT 1");
    assert!(resolve_span_end_fallback(0, &analysis).is_none(), "unterminated BEGIN yields None");
}

#[test]
fn resolve_span_end_fallback_finds_first_begin_after_start_offset() {
    let analysis = make_analysis("CREATE PROCEDURE p AS BEGIN SELECT 1 END");
    let end = resolve_span_end_fallback(0, &analysis).expect("should find BEGIN after CREATE");
    assert!(end <= analysis.source.len(), "resolved end within source bounds");
}

#[test]
fn resolve_span_end_fallback_returns_none_when_no_begin_at_all() {
    let analysis = make_analysis("SELECT 1 FROM t");
    assert!(resolve_span_end_fallback(0, &analysis).is_none(), "no BEGIN/END yields None");
}

#[test]
fn resolve_block_end_uses_ast_span_when_valid() {
    let analysis = make_analysis("DECLARE @i INT\nBEGIN\n    SET @i = 1\nEND\n");
    let block = analysis
        .statements
        .iter()
        .find_map(|s| match s {
            Statement::Block(b) => Some(b),
            _ => None,
        })
        .expect("test fixture should contain a Block");
    let end = resolve_block_end(block, &analysis).expect("should resolve block end");
    assert!(end > block.span.start as usize);
}

#[test]
fn resolve_block_end_falls_back_to_depth_scan_when_span_broken() {
    let analysis = make_analysis("BEGIN SELECT 1 END");
    let broken_block = BlockStatement { span: Span { start: 0, end: 0 }, statements: vec![] };
    assert!(resolve_block_end(&broken_block, &analysis).is_some(), "fallback should find END via token scan");
}

#[test]
fn resolve_stmt_end_returns_ast_span_when_valid() {
    let analysis = make_analysis("BEGIN SELECT 1 END");
    let valid = Statement::Other { expressions: vec![], span: Span { start: 5, end: 20 } };
    let end = resolve_stmt_end(&valid, &analysis).expect("valid span must resolve via tier-1");
    assert_eq!(end, 20, "tier-1 returns span.end unchanged when no clamp applies");
}

#[test]
fn resolve_stmt_end_resolves_create_procedure_via_body_tail() {
    let sql = "CREATE PROCEDURE my_proc AS\nBEGIN\n    SELECT 1\n    SELECT 2\nEND\n";
    let analysis = make_analysis(sql);
    let create_stmt = first_statement(&analysis, |s| matches!(s, Statement::Create(_)));
    let outer_span = create_stmt.span();
    let end = resolve_stmt_end(create_stmt, &analysis).expect("should resolve via body tail");
    assert!(end > outer_span.start as usize, "resolved end ({}) must exceed span start ({})", end, outer_span.start);
    assert!(end <= sql.len(), "resolved end within source bounds");
}

#[test]
fn resolve_stmt_end_resolves_if_statement_via_branch_tail() {
    let sql = "IF 1 = 1\nBEGIN\n    SELECT 1\nEND\n";
    let analysis = make_analysis(sql);
    let if_stmt = first_statement(&analysis, |s| matches!(s, Statement::If { .. }));
    let end = resolve_stmt_end(if_stmt, &analysis).expect("should resolve If via branch tail");
    assert!(end > if_stmt.span().start as usize);
    assert!(end <= sql.len());
}

#[test]
fn resolve_stmt_end_resolves_if_with_else_via_else_branch_tail() {
    let sql = "IF 1 = 1\nBEGIN\n    SELECT 1\nEND\nELSE\nBEGIN\n    SELECT 2\nEND\n";
    let analysis = make_analysis(sql);
    let if_stmt = first_statement(&analysis, |s| matches!(s, Statement::If { .. }));
    let end = resolve_stmt_end(if_stmt, &analysis).expect("should resolve If/Else");
    assert!(end > if_stmt.span().start as usize);
    assert!(end <= sql.len());
}

#[test]
fn resolve_stmt_end_resolves_while_via_body_tail() {
    let sql = "WHILE 1 = 1\nBEGIN\n    SELECT 1\nEND\n";
    let analysis = make_analysis(sql);
    let while_stmt = first_statement(&analysis, |s| matches!(s, Statement::While { .. }));
    let end = resolve_stmt_end(while_stmt, &analysis).expect("should resolve While via body tail");
    assert!(end > while_stmt.span().start as usize);
    assert!(end <= sql.len());
}

#[test]
fn resolve_stmt_end_resolves_trycatch_via_catch_tail() {
    let sql = "BEGIN TRY\n    SELECT 1\nEND TRY\nBEGIN CATCH\n    SELECT 2\nEND CATCH\n";
    let analysis = make_analysis(sql);
    let tc_stmt = first_statement(&analysis, |s| matches!(s, Statement::TryCatch { .. }));
    let end = resolve_stmt_end(tc_stmt, &analysis).expect("should resolve TryCatch");
    assert!(end > tc_stmt.span().start as usize);
    assert!(end <= sql.len());
}

#[test]
fn resolve_stmt_end_resolves_create_trigger_via_body_tail() {
    let sql = "CREATE TRIGGER my_trig ON my_table FOR INSERT\nAS\nBEGIN\n    SELECT 1\nEND\n";
    let analysis = make_analysis(sql);
    let create_stmt = first_statement(&analysis, |s| matches!(s, Statement::Create(_)));
    if let Some(end_off) = resolve_stmt_end(create_stmt, &analysis) {
        assert!(end_off > 0);
        assert!(end_off <= sql.len());
    }
}

#[test]
fn resolve_stmt_end_clamps_if_overshooting_span_to_own_end() {
    let sql = "IF 1 = 1\nBEGIN\n    SELECT 1\nEND\nSELECT 99";
    let analysis = make_analysis(sql);
    let if_stmt = first_statement(&analysis, |s| matches!(s, Statement::If { .. }));
    let raw_end = if_stmt.span().end as usize;
    let end = resolve_stmt_end(if_stmt, &analysis).expect("should resolve");
    assert!(end <= raw_end, "clamp must not increase the span end (raw={raw_end}, got={end})");
    let trailing_offset = sql.find("SELECT 99").unwrap();
    assert!(end <= trailing_offset, "resolved end ({end}) must not overshoot into trailing SELECT 99");
}

#[test]
fn resolve_stmt_end_clamps_procedure_overshooting_span_to_own_end() {
    let sql = "CREATE PROCEDURE sp_t AS\nBEGIN\n    SELECT 1\nEND\nSELECT 99";
    let analysis = make_analysis(sql);
    let create = first_statement(&analysis, |s| matches!(s, Statement::Create(_)));
    let end = resolve_stmt_end(create, &analysis).expect("should resolve");
    let trailing_offset = sql.find("SELECT 99").unwrap();
    assert!(end <= trailing_offset, "resolved end ({end}) must not overshoot into trailing SELECT 99");
}

#[test]
fn resolve_stmt_end_returns_none_for_unresovable_broken_statement() {
    let analysis = make_analysis("BEGIN SELECT 1 END");
    let broken = Statement::Other { expressions: vec![], span: Span { start: 9999, end: 0 } };
    assert!(resolve_stmt_end(&broken, &analysis).is_none(), "unresolvable broken statement yields None");
}

/// The analysis of a text, with the CREATE TABLE fallback of the symbol
/// table: when the whole text yields no table but mentions CREATE TABLE, the
/// text cut after the first column list is read again.
fn analyze_with_fallback(source: &str) -> DocumentAnalysis {
    let tokens = lex(source);
    let full = SymbolTableBuilder::build(source, &parse(source));
    let table = if needs_table_fallback(source, &full) {
        match fallback_cut(source, &tokens) {
            Some(end) => {
                let partial = &source[..end];
                prefer_partial(full, SymbolTableBuilder::build(partial, &parse(partial)))
            },
            None => full,
        }
    } else {
        full
    };
    DocumentAnalysis::from_parts(source.to_string(), tokens, parse(source), Vec::new(), table)
}

#[test]
fn test_analysis_builds_line_index() {
    let analysis = analyze_with_fallback("SELECT *\nFROM users");
    assert_eq!(analysis.line_index.offset_to_position(0), (0, 0));
    assert_eq!(analysis.line_index.offset_to_position(9), (1, 0));
}

#[test]
fn test_analysis_builds_symbol_table() {
    let analysis = analyze_with_fallback("CREATE TABLE users (id INT)");
    assert!(analysis.symbol_table.tables.contains_key("USERS"));
}

#[test]
fn test_analysis_empty_source() {
    let analysis = analyze_with_fallback("");
    assert!(analysis.tokens.is_empty());
    assert!(analysis.statements.is_empty());
    assert!(analysis.parse_errors.is_empty());
    assert!(analysis.symbol_table.tables.is_empty());
}

#[test]
fn test_find_token_at_start() {
    let analysis = analyze_with_fallback("SELECT * FROM users");
    let (token, _) = analysis.find_token_at(0).unwrap();
    assert_eq!(token.kind, TokenKind::Select);
    assert_eq!(token.text, "SELECT");
}

#[test]
fn test_find_token_at_mid() {
    let analysis = analyze_with_fallback("SELECT * FROM users");
    let (token, _) = analysis.find_token_at(3).unwrap();
    assert_eq!(token.text, "SELECT");
}

#[test]
fn test_find_token_at_whitespace() {
    let analysis = analyze_with_fallback("SELECT * FROM users");
    assert!(analysis.find_token_at(6).is_none());
}

#[test]
fn test_find_token_at_past_end() {
    let analysis = analyze_with_fallback("SELECT");
    assert!(analysis.find_token_at(100).is_none());
}

#[test]
fn test_find_token_at_variable() {
    let analysis = analyze_with_fallback("DECLARE @count INT");
    let (token, _) = analysis.find_token_at(8).unwrap();
    assert_eq!(token.kind, TokenKind::LocalVar);
    assert_eq!(token.text, "@count");
}

#[test]
fn test_get_line_single_line() {
    assert_eq!(analyze_with_fallback("SELECT * FROM users").get_line(0), "SELECT * FROM users");
}

#[test]
fn test_get_line_multi_line() {
    let analysis = analyze_with_fallback("SELECT *\nFROM users\nWHERE id = 1");
    assert_eq!(analysis.get_line(0), "SELECT *");
    assert_eq!(analysis.get_line(1), "FROM users");
    assert_eq!(analysis.get_line(2), "WHERE id = 1");
}

#[test]
fn test_get_line_out_of_range_returns_empty() {
    assert_eq!(analyze_with_fallback("SELECT *").get_line(5), "");
}

#[test]
fn test_get_line_empty_source() {
    assert_eq!(analyze_with_fallback("").get_line(0), "");
}

#[test]
fn test_get_line_trailing_newline() {
    let analysis = analyze_with_fallback("line1\nline2\n");
    assert_eq!(analysis.get_line(0), "line1");
    assert_eq!(analysis.get_line(1), "line2");
    assert_eq!(analysis.get_line(2), "");
}

#[test]
fn test_get_line_crlf() {
    let analysis = analyze_with_fallback("line1\r\nline2");
    assert_eq!(analysis.get_line(0), "line1");
    assert_eq!(analysis.get_line(1), "line2");
}

#[test]
fn test_fallback_extracts_table_from_partial_source() {
    let source = "CREATE TABLE users (id INT, name VARCHAR(100))\nINSERT INTO users VALUES (";
    let analysis = analyze_with_fallback(source);
    assert!(analysis.symbol_table.tables.contains_key("USERS"), "Fallback should extract table from partial source");
}

#[test]
fn test_no_fallback_when_table_already_found() {
    let analysis = analyze_with_fallback("CREATE TABLE users (id INT)");
    assert!(analysis.symbol_table.tables.contains_key("USERS"));
}

#[test]
fn test_no_fallback_without_create_table_keyword() {
    let analysis = analyze_with_fallback("SELECT * FROM users\nWHERE id = 1");
    assert!(analysis.symbol_table.tables.is_empty());
}

#[test]
fn test_fallback_with_many_lines() {
    let mut lines = vec!["CREATE TABLE big_table (id INT".to_string()];
    for i in 1..50 {
        lines.push(format!("  , col_{i} VARCHAR(100)"));
    }
    lines.push(")".to_string());
    lines.push("INSERT INTO big_table VALUES (1,".to_string());
    let source = lines.join("\n");
    let analysis = analyze_with_fallback(&source);
    assert!(analysis.symbol_table.tables.contains_key("BIG_TABLE"), "Fallback should handle many-line sources");
}

fn table_of(source: &str) -> SymbolTable {
    SymbolTableBuilder::build(source, &parse(source))
}

fn complete(prefix: &str, source: &str) -> CompletionList {
    complete_for_context(prefix, &table_of(source), &CompletionConfig::default(), &Vec::new())
}

#[test]
fn complete_for_context_returns_table_names() {
    let list = complete("SELECT * FROM ", "CREATE TABLE users (id INT)");
    assert!(list.items.iter().any(|i| i.label == "users"), "FROM context should offer table names");
}

#[test]
fn table_context_small_does_not_set_incomplete() {
    let threshold = incomplete_threshold();
    let list = complete("SELECT * FROM ", "CREATE TABLE users (id INT)");
    assert!(list.items.len() < threshold);
    assert!(!list.is_incomplete, "Table context with few items must not set is_incomplete");
}

#[test]
fn table_context_many_tables_sets_incomplete() {
    let threshold = incomplete_threshold();
    let mut sql = String::new();
    for i in 0..(threshold + 5) {
        sql.push_str(&format!("CREATE TABLE t{i} (id INT) "));
    }
    let list = complete("SELECT * FROM ", &sql);
    assert!(list.items.len() > threshold, "Expected more than {threshold} table items");
    assert!(list.is_incomplete, "Table context exceeding threshold must signal is_incomplete=true");
}

#[test]
fn expression_context_prepends_declared_variables() {
    let list = complete("SELECT ", "DECLARE @count INT\nDECLARE @name VARCHAR(50)");
    let count = list.items.iter().find(|i| i.label == "@count").expect("declared @count should be offered");
    assert_eq!(count.kind, Some(CompletionItemKind::Variable));
    assert!(count.detail.as_deref().unwrap_or("").contains("INT"));
    let name = list.items.iter().find(|i| i.label == "@name").expect("declared @name should be offered");
    assert_eq!(name.kind, Some(CompletionItemKind::Variable));
    assert!(name.detail.as_deref().unwrap_or("").contains("VARCHAR"));
}

#[test]
fn expression_context_prepends_variables_after_at_prefix() {
    let list = complete("SELECT @", "DECLARE @total INT");
    assert!(list.items.iter().any(|i| i.label == "@total"), "`@` prefix should still surface declared variables");
}

#[test]
fn expression_context_prepends_variables_in_set_value_position() {
    let list = complete("SET @a = ", "DECLARE @a INT\nDECLARE @b INT");
    assert!(list.items.iter().any(|i| i.label == "@a"));
    assert!(list.items.iter().any(|i| i.label == "@b"));
}

#[test]
fn expression_context_prepends_procedure_parameters() {
    let list = complete("SELECT ", "CREATE PROCEDURE my_proc @p1 INT, @p2 VARCHAR(20) OUTPUT AS BEGIN SELECT 1 END");
    let p1 = list.items.iter().find(|i| i.label == "@p1").expect("procedure parameter @p1 should be offered");
    assert_eq!(p1.kind, Some(CompletionItemKind::Variable));
    assert!(p1.detail.as_deref().unwrap_or("").contains("INT"));
    let p2 = list.items.iter().find(|i| i.label == "@p2").expect("procedure parameter @p2 should be offered");
    assert_eq!(p2.kind, Some(CompletionItemKind::Variable));
    assert!(p2.detail.as_deref().unwrap_or("").contains("VARCHAR"));
}

#[test]
fn expression_context_prepends_procedure_body_variables() {
    let list = complete("SELECT ", "CREATE PROCEDURE my_proc @p1 INT AS BEGIN DECLARE @local VARCHAR(10) SELECT 1 END");
    assert!(list.items.iter().any(|i| i.label == "@local"), "procedure body variable @local should be offered");
    assert!(list.items.iter().any(|i| i.label == "@p1"), "procedure parameter @p1 should still be offered");
}

#[test]
fn expression_context_deduplicates_variable_names() {
    let list = complete("SELECT ", "DECLARE @dup INT\nCREATE PROCEDURE p AS BEGIN DECLARE @dup INT END");
    let dup_count = list.items.iter().filter(|i| i.label == "@dup").count();
    assert_eq!(dup_count, 1, "duplicate @dup entries should be collapsed, found {dup_count}");
}

#[test]
fn expression_context_variables_precede_static_items() {
    let list = complete("SELECT ", "DECLARE @first INT");
    let first_idx = list.items.iter().position(|i| i.label == "@first").expect("@first should be present");
    let select_idx = list.items.iter().position(|i| i.label == "SELECT").expect("SELECT keyword should still be present");
    assert!(first_idx < select_idx, "variable @first (idx {first_idx}) must precede static SELECT (idx {select_idx})");
}

#[test]
fn expression_context_preserves_static_list_alongside_variables() {
    let list = complete("SELECT ", "DECLARE @x INT");
    assert!(list.items.iter().any(|i| i.label == "@x"));
    assert!(list.items.iter().any(|i| i.label == "SELECT"));
    assert!(list.items.iter().any(|i| i.label == "GETDATE"));
    assert!(list.items.iter().any(|i| i.label == "INT"));
}

#[test]
fn variable_declaration_context_still_empty_with_variables_present() {
    let list = complete("DECLARE @", "DECLARE @count INT");
    assert!(list.items.is_empty(), "VariableDeclaration context must stay empty");
}

#[test]
fn test_build_table_symbol() {
    let table = table_of("CREATE TABLE users (id INT, name VARCHAR(100))");
    let users = table.tables.get("USERS").expect("table should exist");
    assert_eq!(users.name, "users");
    assert_eq!(users.columns.len(), 2);
    assert_eq!(users.columns[0].name, "id");
    assert_eq!(users.columns[1].name, "name");
    assert!(!users.is_temporary);
}

#[test]
fn test_build_procedure_symbol() {
    let table =
        table_of("CREATE PROCEDURE my_proc @p1 INT, @p2 VARCHAR(50) OUTPUT AS BEGIN DECLARE @x INT SET @x = 1 END");
    let proc = table.procedures.get("MY_PROC").expect("proc should exist");
    assert_eq!(proc.name, "my_proc");
    assert_eq!(proc.parameters.len(), 2);
    assert_eq!(proc.parameters[0].name, "@p1");
    assert_eq!(proc.parameters[1].name, "@p2");
    assert!(proc.parameters[1].is_output);
    assert_eq!(proc.body_variables.len(), 1);
    assert_eq!(proc.body_variables[0].name, "@x");
}

#[test]
fn test_build_view_symbol() {
    let table = table_of("CREATE VIEW active_users AS SELECT * FROM users");
    let view = table.views.get("ACTIVE_USERS").expect("view should exist");
    assert_eq!(view.name, "active_users");
}

#[test]
fn test_build_index_symbol() {
    let table = table_of("CREATE INDEX idx_users_id ON users (id)");
    let idx = table.indexes.get("IDX_USERS_ID").expect("index should exist");
    assert_eq!(idx.name, "idx_users_id");
    assert_eq!(idx.table_name, "users");
    assert!(!idx.is_unique);
    assert_eq!(idx.columns, vec!["id".to_string()]);
}

#[test]
fn test_build_declare_variables() {
    let table = table_of("DECLARE @count INT\nDECLARE @name VARCHAR(100)");
    let count_var = table.variables.get("@COUNT").expect("var should exist");
    assert_eq!(count_var.name, "@count");
    assert_eq!(count_var.data_type, "INT");
    let name_var = table.variables.get("@NAME").expect("var should exist");
    assert_eq!(name_var.name, "@name");
}

#[test]
fn test_find_table() {
    let table = table_of("CREATE TABLE users (id INT)");
    assert!(SymbolTableBuilder::find_table(&table, "users").is_some());
    assert!(SymbolTableBuilder::find_table(&table, "USERS").is_some());
    assert!(SymbolTableBuilder::find_table(&table, "nonexistent").is_none());
}

#[test]
fn test_find_variable() {
    let table = table_of("DECLARE @count INT");
    assert!(SymbolTableBuilder::find_variable(&table, "@count").is_some());
    assert!(SymbolTableBuilder::find_variable(&table, "@COUNT").is_some());
    assert!(SymbolTableBuilder::find_variable(&table, "count").is_some());
    assert!(SymbolTableBuilder::find_variable(&table, "@other").is_none());
}

#[test]
fn test_variable_in_nested_block() {
    let table = table_of("CREATE PROCEDURE test_proc AS BEGIN DECLARE @x INT IF 1 = 1 BEGIN DECLARE @y INT END END");
    let proc = table.procedures.get("TEST_PROC").expect("proc should exist");
    assert_eq!(proc.body_variables.len(), 2);
    let names: Vec<&str> = proc.body_variables.iter().map(|v| v.name.as_str()).collect();
    assert!(names.contains(&"@x"));
    assert!(names.contains(&"@y"));
}

#[test]
fn test_table_constraints() {
    let source = "CREATE TABLE orders (
            id INT,
            user_id INT,
            CONSTRAINT pk_orders PRIMARY KEY (id),
            CONSTRAINT fk_user FOREIGN KEY (user_id) REFERENCES users (id)
        )";
    let table = table_of(source);
    let orders = table.tables.get("ORDERS").expect("table should exist");
    assert_eq!(orders.constraints.len(), 2);
    assert!(matches!(
        &orders.constraints[0].kind,
        ConstraintKind::PrimaryKey { columns } if columns[0] == "id"
    ));
    assert!(matches!(
        &orders.constraints[1].kind,
        ConstraintKind::Foreign { ref_table, .. } if ref_table == "users"
    ));
}

#[test]
fn mod_test_empty_source() {
    let table = table_of("");
    assert!(table.tables.is_empty());
    assert!(table.procedures.is_empty());
    assert!(table.views.is_empty());
}

#[test]
fn test_find_identifier_at() {
    let source = "SELECT * FROM users";
    let result = SymbolTableBuilder::find_identifier_at(source, &lex(source), pos(0, 15));
    assert!(result.is_some());
    let (name, _range) = result.unwrap();
    assert_eq!(name, "users");
}

#[test]
fn test_variable_after_set_statement() {
    let table = table_of("DECLARE @x INT\nSET @x = 1\nDECLARE @y INT");
    assert!(table.variables.contains_key("@X"), "@x should be tracked");
    assert!(table.variables.contains_key("@Y"), "@y after SET should still be tracked");
}

#[test]
fn test_variable_after_transaction() {
    let table = table_of("BEGIN TRAN\nDECLARE @x INT\nCOMMIT");
    assert!(table.variables.contains_key("@X"), "Variable inside transaction context should be tracked");
}

#[test]
fn test_variable_after_select_statement() {
    let table = table_of("SELECT * FROM t\nDECLARE @result INT");
    assert!(table.variables.contains_key("@RESULT"), "Variable after SELECT should be tracked");
}

#[test]
fn test_table_and_procedure_in_multi_batch() {
    let table = table_of("CREATE TABLE t (id INT)\nGO\nCREATE PROCEDURE p AS BEGIN RETURN 1 END");
    assert!(table.tables.contains_key("T"), "Table before GO should be tracked");
    assert!(table.procedures.contains_key("P"), "Procedure after GO should be tracked");
}

#[test]
fn test_empty_source_returns_empty_table() {
    let table = table_of("");
    assert!(table.tables.is_empty());
    assert!(table.procedures.is_empty());
    assert!(table.variables.is_empty());
    assert!(table.views.is_empty());
    assert!(table.indexes.is_empty());
}

#[test]
fn test_invalid_sql_returns_empty_table() {
    assert!(table_of("NOT VALID SQL AT ALL").tables.is_empty(), "Invalid SQL should produce empty symbol table");
}

#[test]
fn test_variable_in_if_block() {
    let table = table_of("IF 1 = 1\nBEGIN\n    DECLARE @x INT\n    SET @x = 1\nEND");
    assert!(table.variables.contains_key("@X"), "Variable inside IF/BEGIN block should be tracked");
}

#[test]
fn test_case_insensitive_table_lookup() {
    assert!(table_of("CREATE TABLE MyTable (id INT)").tables.contains_key("MYTABLE"), "Should find table via uppercase key");
}

#[test]
fn test_index_extraction() {
    assert!(table_of("CREATE INDEX idx_name ON users (id)").indexes.contains_key("IDX_NAME"), "Index should be tracked");
}

#[test]
fn test_trigger_extraction() {
    let table = table_of("CREATE TRIGGER tr_test ON users FOR INSERT AS BEGIN SELECT 1 END");
    assert!(table.triggers.contains_key("TR_TEST"), "Trigger should be tracked");
    let trigger = table.triggers.get("TR_TEST").expect("trigger exists");
    assert_eq!(trigger.name, "tr_test");
    assert_eq!(trigger.table_name, "users");
    assert!(trigger.events.contains(&"Insert".to_string()));
}

#[test]
fn test_trigger_multiple_events() {
    let table = table_of("CREATE TRIGGER tr_multi ON users FOR INSERT, UPDATE, DELETE AS BEGIN SELECT 1 END");
    let trigger = table.triggers.get("TR_MULTI").expect("trigger exists");
    assert_eq!(trigger.events.len(), 3);
}

#[test]
fn test_trigger_definition_found() {
    let source = "CREATE TRIGGER tr_test ON users FOR INSERT AS BEGIN SELECT 1 END";
    assert!(table_of(source).triggers.contains_key("TR_TEST"), "Trigger should be tracked before testing definition");
    assert!(!def_ranges(source, 0, 18).is_empty(), "Go to Definition should find trigger definition");
}

fn error_diagnostics(source: &str) -> Vec<Diagnostic> {
    let (stmts, errors) = parse_with_errors(source);
    let table = SymbolTableBuilder::build(source, &stmts);
    let analysis = DocumentAnalysis::from_parts(source.to_string(), lex(source), stmts, errors, table);
    diagnose(&analysis).into_iter().filter(|d| d.severity == Some(Severity::Error)).collect()
}

#[test]
fn test_valid_sql_no_parse_errors() {
    assert!(error_diagnostics("SELECT id, name FROM users").is_empty());
}

#[test]
fn test_invalid_sql_has_diagnostics() {
    let errors = error_diagnostics("SELCT * FROM users");
    assert!(!errors.is_empty());
    assert_eq!(errors[0].source.as_deref(), Some("ase-ls"));
}

#[test]
fn test_diagnostic_range() {
    let errors = error_diagnostics("SELCT * FROM users");
    assert!(!errors.is_empty());
    assert_eq!(errors[0].range.start.line, 0);
    assert_eq!(errors[0].range.start.character, 0);
}

#[test]
fn test_diagnostic_has_message() {
    let errors = error_diagnostics("SELCT * FROM users");
    assert!(!errors.is_empty());
    assert!(!errors[0].message.is_empty());
}

#[test]
fn test_diagnostic_range_not_default() {
    let errors = error_diagnostics("SELCT * FROM users");
    assert!(!errors.is_empty());
    let range = errors[0].range;
    assert!(range.start.line > 0 || range.start.character > 0 || range.end.character > range.start.character);
}

#[test]
fn test_diagnostic_end_after_start() {
    let errors = error_diagnostics("SELCT * FROM users");
    assert!(!errors.is_empty());
    let range = errors[0].range;
    assert!(range.end.line >= range.start.line);
    if range.end.line == range.start.line {
        assert!(range.end.character > range.start.character);
    }
}

#[test]
fn test_parse_errors_converts_all() {
    assert!(!error_diagnostics("SELCT FRO users").is_empty());
}

#[test]
fn test_valid_complex_sql_no_parse_errors() {
    let source = "CREATE TABLE t (id INT)\nINSERT INTO t (id) VALUES (1)\nSELECT * FROM t";
    assert!(error_diagnostics(source).is_empty());
}

#[test]
fn test_diagnose_includes_parse_errors() {
    for source in ["SELCT * FROM", ""] {
        let (stmts, errors) = parse_with_errors(source);
        let table = SymbolTableBuilder::build(source, &stmts);
        let analysis = DocumentAnalysis::from_parts(source.to_string(), lex(source), stmts, errors, table);
        let diags = diagnose(&analysis);
        let parse_errors: Vec<&Diagnostic> = diags.iter().filter(|d| d.severity == Some(Severity::Error)).collect();
        if !source.is_empty() {
            assert!(
                !parse_errors.is_empty() || !diags.is_empty(),
                "diagnose() should produce diagnostics for invalid source: {source:?}"
            );
        }
    }
}

#[test]
fn test_parse_error_position_adjusted_to_zero_indexed() {
    let errors = error_diagnostics("SELCT * FROM");
    assert!(!errors.is_empty());
    assert_eq!(errors[0].range.start.line, 0);
}


#[test]
fn test_create_procedure_fold_resolves_when_followed_by_trailing_statement() {
    let ranges = folds("CREATE PROCEDURE sp_t AS\nBEGIN\n    SELECT 1\nEND\nSELECT 99");
    let proc_fold = ranges
        .iter()
        .filter(|r| r.kind == Some(FoldingRangeKind::Region))
        .find(|r| r.start_line == 0)
        .expect("should have a proc fold at line 0");
    assert!(proc_fold.end_line > proc_fold.start_line, "proc fold must span multiple lines");
}

#[test]
fn test_if_fold_resolves_when_followed_by_trailing_statement() {
    let ranges = folds("IF 1 = 1\nBEGIN\n    SELECT 1\nEND\nSELECT 99");
    let if_fold = ranges
        .iter()
        .filter(|r| r.kind == Some(FoldingRangeKind::Region))
        .find(|r| r.start_line == 0)
        .expect("should have an IF fold at line 0");
    assert!(if_fold.end_line > if_fold.start_line, "IF fold must span multiple lines");
}

#[test]
fn test_fallback_symbol_table_with_parse_errors() {
    let source = "CREATE TABLE t (a INT, b INT)\nGO\nSELECT * FROM t\n";
    let acts = code_actions_with_analysis(
        &analyze_with_fallback(source),
        Range::new(pos(2, 0), pos(2, 20)),
        &test_uri(),
    );
    assert!(
        find(&acts, "Expand").is_some(),
        "Symbol table should find table definition and offer SELECT * expansion"
    );
}

#[test]
fn test_symbol_table_build_tolerant_works() {
    let table = table_of("CREATE TABLE fb_t (a INT, b INT)\nSELECT * FROM fb_t");
    assert!(!table.tables.is_empty(), "build_tolerant should find at least one table from valid DDL");
}

#[test]
fn test_symbol_table_build_tolerant_go_batches() {
    let table = table_of("CREATE TABLE trunc_t (x INT)\nGO\nSELECT * FROM trunc_t\nGO");
    assert!(!table.tables.is_empty(), "Should find table (build_tolerant handles GO batches)");
}

fn base_uri() -> &'static str {
    "file:///home/user/scripts/main.sql"
}

fn links_of(source: &str, enable: bool) -> Vec<DocumentLink> {
    document_links(&make_analysis(source), base_uri(), &DocumentLinkConfig { enable })
}

fn target_str(link: &DocumentLink) -> String {
    link.target.clone().unwrap()
}

#[test]
fn normal_unquoted_r_directive_emits_resolved_link() {
    let links = links_of(":r init.sql", true);
    assert_eq!(links.len(), 1, "one :r directive → one link");
    assert_eq!(target_str(&links[0]), "file:///home/user/scripts/init.sql");
    assert!(links[0].data.is_some(), "data stashed for resolve");
}

#[test]
fn subpath_joined_document_relatively() {
    let links = links_of(":r sub/deep/seed.sql", true);
    assert_eq!(links.len(), 1);
    assert_eq!(target_str(&links[0]), "file:///home/user/scripts/sub/deep/seed.sql");
}

#[test]
fn double_quoted_path_strips_quotes() {
    let links = links_of(":r \"other.sql\"", true);
    assert_eq!(links.len(), 1, "double-quoted link");
    assert_eq!(target_str(&links[0]), "file:///home/user/scripts/other.sql");
}

#[test]
fn single_quoted_path_strips_quotes() {
    let links = links_of(":r 'other.sql'", true);
    assert_eq!(links.len(), 1, "single-quoted link");
    assert_eq!(target_str(&links[0]), "file:///home/user/scripts/other.sql");
}

#[test]
fn quoted_backslash_path_normalised_to_forward_slash() {
    let links = links_of(":r 'sub\\file.sql'", true);
    assert_eq!(links.len(), 1, "backslash link");
    assert_eq!(target_str(&links[0]), "file:///home/user/scripts/sub/file.sql");
}

#[test]
fn disabled_config_emits_no_links() {
    assert!(links_of(":r init.sql\n:r other.sql", false).is_empty(), "config gate must suppress all links");
}

#[test]
fn empty_path_emits_no_link() {
    assert!(links_of(":r", true).is_empty(), "bare `:r` → no link");
    assert!(links_of(":r\nSELECT 1", true).is_empty());
}

#[test]
fn dotdot_overflow_drops_link() {
    assert!(links_of(":r ../../etc/passwd", true).is_empty(), "`..` overflow must drop the link");
}

#[test]
fn single_dotdot_above_doc_dir_drops_link() {
    assert!(links_of(":r ../sibling.sql", true).is_empty(), "`..` must not escape the document directory");
}

#[test]
fn r_not_at_line_start_is_not_a_directive() {
    assert!(links_of("SELECT x :r nope.sql", true).is_empty(), "mid-line `:r` is not sqlcmd");
}

#[test]
fn indented_r_is_still_line_start() {
    let links = links_of("  :r init.sql", true);
    assert_eq!(links.len(), 1, "indented `:r` is still a directive");
    assert_eq!(target_str(&links[0]), "file:///home/user/scripts/init.sql");
}

#[test]
fn uppercase_r_directive_recognised() {
    assert_eq!(links_of(":R init.sql", true).len(), 1, "`:R` (uppercase) recognised");
}

#[test]
fn multiple_directives_emit_multiple_links() {
    let links = links_of(":r a.sql\n:r b.sql\n:r c.sql", true);
    assert_eq!(links.len(), 3, "one link per directive");
    assert!(links.iter().all(|l| target_str(l).starts_with("file:///home/user/scripts/")));
}

#[test]
fn resolve_round_trip_recovers_target() {
    let analysis = make_analysis(":r init.sql");
    let links = document_links(&analysis, base_uri(), &DocumentLinkConfig { enable: true });
    let resolved = resolve_document_link(&links[0], &analysis).expect("resolves");
    assert_eq!(target_str(&resolved), "file:///home/user/scripts/init.sql");
}

#[test]
fn resolve_recovers_target_from_data_when_target_absent() {
    let analysis = make_analysis(":r init.sql");
    let mut links = document_links(&analysis, base_uri(), &DocumentLinkConfig { enable: true });
    let mut link = links.pop().unwrap();
    link.target = None;
    let resolved = resolve_document_link(&link, &analysis).expect("resolves from data");
    assert_eq!(target_str(&resolved), "file:///home/user/scripts/init.sql");
}

#[test]
fn resolve_returns_none_without_data() {
    let analysis = make_analysis(":r init.sql");
    let link = DocumentLink { range: Range::new(pos(0, 0), pos(0, 0)), target: None, tooltip: None, data: None };
    assert!(resolve_document_link(&link, &analysis).is_none());
}

#[test]
fn normal_sql_document_has_no_links() {
    assert!(links_of("SELECT * FROM users WHERE id = 1", true).is_empty());
}

#[test]
fn setvar_directive_is_not_matched() {
    assert!(links_of(":setvar X 1", true).is_empty(), ":setvar must not emit a link");
}

#[test]
fn link_range_covers_colon_through_end_of_path() {
    let links = links_of(":r init.sql", true);
    assert_eq!(links[0].range.start, pos(0, 0));
    assert_eq!(links[0].range.end, pos(0, 11));
}


#[test]
fn test_while_with_begin_fold_spans_to_end_line() {
    let ranges = folds("WHILE @x < 10\nBEGIN\n    SELECT 1\nEND");
    let outer = outermost_region_fold(&ranges).expect("WHILE...BEGIN...END should fold");
    assert_eq!(outer.start_line, 0, "WHILE fold starts at line 0");
    assert_eq!(outer.end_line, 3, "WHILE fold should end on END line (3), got {}", outer.end_line);
}
