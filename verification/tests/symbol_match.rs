use ase_ls_core::token::TokenKind;
use ase_ls_core::token_matches_symbol;

#[test]
fn test_token_matches_symbol_variable() {
    assert!(token_matches_symbol(TokenKind::LocalVar, "@count", "@COUNT", true));
    assert!(!token_matches_symbol(TokenKind::Ident, "count", "@COUNT", true));
}

#[test]
fn test_token_matches_symbol_identifier() {
    assert!(token_matches_symbol(TokenKind::Ident, "users", "USERS", false));
    assert!(!token_matches_symbol(TokenKind::Ident, "users", "ORDERS", false));
}

#[test]
fn test_token_matches_symbol_keyword_as_name() {
    assert!(token_matches_symbol(TokenKind::Select, "select", "SELECT", false));
    assert!(token_matches_symbol(TokenKind::Table, "table", "TABLE", false));
}

#[test]
fn test_token_matches_symbol_case_insensitive() {
    assert!(token_matches_symbol(TokenKind::Ident, "Users", "USERS", false));
    assert!(token_matches_symbol(TokenKind::LocalVar, "@Count", "@COUNT", true));
}

#[test]
fn test_token_matches_symbol_exec_keyword() {
    assert!(token_matches_symbol(TokenKind::Exec, "exec", "EXEC", false));
}

#[test]
fn test_token_matches_symbol_string_not_matched() {
    assert!(!token_matches_symbol(TokenKind::String, "users", "USERS", false));
}

#[test]
fn test_token_matches_symbol_temp_table_matches() {
    assert!(token_matches_symbol(TokenKind::TempTable, "#temp", "#TEMP", false));
    assert!(token_matches_symbol(TokenKind::TempTable, "#Temp", "#TEMP", false));
}

#[test]
fn test_token_matches_symbol_global_temp_table_matches() {
    assert!(token_matches_symbol(TokenKind::GlobalTempTable, "##global", "##GLOBAL", false));
    assert!(token_matches_symbol(TokenKind::GlobalTempTable, "##Global", "##GLOBAL", false));
}

#[test]
fn test_token_matches_symbol_temp_table_name_mismatch() {
    assert!(!token_matches_symbol(TokenKind::TempTable, "#temp", "#OTHER", false));
    assert!(!token_matches_symbol(TokenKind::GlobalTempTable, "##global", "##OTHER", false));
}

#[test]
fn test_token_matches_symbol_temp_table_not_matched_as_variable() {
    assert!(!token_matches_symbol(TokenKind::TempTable, "#temp", "#TEMP", true));
    assert!(!token_matches_symbol(TokenKind::GlobalTempTable, "##global", "##GLOBAL", true));
}
