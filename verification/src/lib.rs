//! Core logic of a language server for SAP ASE (Sybase) T-SQL: text
//! positions, incremental edits, configuration, built-in documentation
//! tables, symbol indexes and the token-level analyses that the editor
//! features are built on.

pub mod analysis;
pub mod ast;
pub mod code_actions;
pub mod code_lens;
pub mod completion;
pub mod config;
pub mod db_docs;
pub mod definition;
pub mod diagnostics;
pub mod document_links;
pub mod folding;
pub mod formatting;
pub mod hover;
pub mod incremental;
pub mod inlay_hints;
pub mod line_index;
pub mod position;
pub mod references;
pub mod rename;
pub mod semantic_tokens;
pub mod signature_help;
pub mod span_resolve;
pub mod symbol_build;
pub mod symbol_store;
pub mod symbol_table;
pub mod symbols;
pub mod text;
pub mod token;

use crate::text::{eq_ignore_ascii, eq_ignore_ascii_case};
use crate::token::TokenKind;
use vstd::prelude::*;

verus! {

/// Whether a token of kind `kind` written `text` names the symbol written
/// `search` (ASCII letters in any case): a variable matches only variable
/// tokens; any other symbol matches identifiers, keywords used as names, and
/// temporary table names.
pub open spec fn matches_symbol(kind: TokenKind, text: Seq<char>, search: Seq<char>, is_var: bool) -> bool {
    let kind_ok = if is_var {
        kind == TokenKind::LocalVar
    } else {
        kind == TokenKind::Ident || kind.is_keyword() || kind == TokenKind::TempTable
            || kind == TokenKind::GlobalTempTable
    };
    kind_ok && eq_ignore_ascii(text, search)
}

/// Whether a token names the searched symbol (see [`matches_symbol`]).
pub fn token_matches_symbol(kind: TokenKind, text: &str, search_upper: &str, is_var: bool) -> (r: bool)
    ensures
        r == matches_symbol(kind, text@, search_upper@, is_var),
{
    let kind_ok = if is_var {
        matches!(kind, TokenKind::LocalVar)
    } else {
        matches!(kind, TokenKind::Ident) || kind.is_keyword() || matches!(kind, TokenKind::TempTable)
            || matches!(kind, TokenKind::GlobalTempTable)
    };
    kind_ok && eq_ignore_ascii_case(text, search_upper)
}

} // verus!
