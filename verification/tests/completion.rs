use ase_ls_core::completion::{
    apply_snippet_config, build_function_snippet, complete_all, complete_for_context, complete_keywords,
    detect_column_trigger, detect_context, incomplete_threshold, is_comma_separated_syntax, CompletionContext,
    CompletionItemKind, InsertTextFormat,
};
use ase_ls_core::config::CompletionConfig;
use ase_ls_core::symbol_table::SymbolTable;

#[test]
fn test_build_snippet_with_params() {
    let result = build_function_snippet("SUBSTRING", &["expression", "start", "length"]);
    assert_eq!(result, "SUBSTRING(${1:expression}, ${2:start}, ${3:length})");
}

#[test]
fn test_build_snippet_no_params() {
    let result = build_function_snippet("GETDATE", &[]);
    assert_eq!(result, "GETDATE()");
}

#[test]
fn test_build_snippet_single_param() {
    let result = build_function_snippet("COUNT", &["expression"]);
    assert_eq!(result, "COUNT(${1:expression})");
}

#[test]
fn test_build_snippet_optional_params_clean() {
    let result = build_function_snippet("CONVERT", &["type", "expression", "style"]);
    assert_eq!(result, "CONVERT(${1:type}, ${2:expression}, ${3:style})");
    assert!(!result.contains('['), "No brackets should appear in snippet");
}

#[test]
fn test_is_comma_separated_syntax() {
    assert!(is_comma_separated_syntax("SUBSTRING(expression, start, length)"));
    assert!(is_comma_separated_syntax("GETDATE()"));
    assert!(!is_comma_separated_syntax("CAST(expression AS type)"));
    assert!(!is_comma_separated_syntax("IDENTITY"));
    assert!(!is_comma_separated_syntax("OBJECT_ID('object_name')"));
    assert!(!is_comma_separated_syntax("COUNT([DISTINCT] expression | *)"));
}

#[test]
fn test_is_comma_separated_syntax_edge_cases() {
    assert!(!is_comma_separated_syntax(""));
    assert!(is_comma_separated_syntax("()"));
    assert!(is_comma_separated_syntax("F()"));
}

#[test]
fn detect_context_table_after_from() {
    assert_eq!(detect_context("SELECT * FROM "), CompletionContext::Table);
}

#[test]
fn detect_context_table_while_typing_name() {
    assert_eq!(detect_context("SELECT * FROM u"), CompletionContext::Table);
}

#[test]
fn detect_context_table_after_join_and_into() {
    assert_eq!(detect_context("SELECT * FROM a JOIN "), CompletionContext::Table);
    assert_eq!(detect_context("INSERT INTO "), CompletionContext::Table);
    assert_eq!(detect_context("UPDATE "), CompletionContext::Table);
}

#[test]
fn detect_context_variable_declaration() {
    assert_eq!(detect_context("DECLARE @"), CompletionContext::VariableDeclaration);
    assert_eq!(detect_context("DECLARE @co"), CompletionContext::VariableDeclaration);
    assert_eq!(detect_context("DECLARE "), CompletionContext::VariableDeclaration);
}

#[test]
fn detect_context_expression_positions() {
    assert_eq!(detect_context("SELECT "), CompletionContext::Expression);
    assert_eq!(detect_context("SELECT * FROM users WHERE "), CompletionContext::Expression);
    assert_eq!(detect_context(""), CompletionContext::Expression);
}

#[test]
fn incomplete_threshold_is_positive() {
    let threshold = incomplete_threshold();
    assert!(threshold > 0, "INCOMPLETE_THRESHOLD must be positive, got {threshold}");
}

#[test]
fn incomplete_threshold_matches_static_complete_all_count() {
    let threshold = incomplete_threshold();
    let count = complete_all().items.len();
    assert_eq!(threshold, count, "INCOMPLETE_THRESHOLD should equal complete_all() item count");
}

#[test]
fn detect_context_column_after_qualifier() {
    assert_eq!(detect_context("SELECT u."), CompletionContext::Column);
    assert_eq!(detect_column_trigger("SELECT u."), Some("u"));
    assert_eq!(detect_column_trigger("SELECT users."), Some("users"));
    assert_eq!(detect_column_trigger("SELECT u.id"), None);
    assert_eq!(detect_column_trigger("SELECT a-b."), None);
    assert_eq!(detect_column_trigger("SELECT 1.5"), None);
    assert_eq!(detect_column_trigger("SELECT x"), None);
}

#[test]
fn complete_keywords_are_keywords_only() {
    let list = complete_keywords();
    assert!(!list.items.is_empty());
    assert!(list.items.iter().all(|i| i.kind == Some(CompletionItemKind::Keyword)));
}

#[test]
fn complete_all_has_system_variable_and_plain_identity() {
    let list = complete_all();
    assert!(list.items.iter().any(|i| i.label == "@@ROWCOUNT" && i.kind == Some(CompletionItemKind::Variable)));
    let identity = list
        .items
        .iter()
        .find(|i| i.label == "IDENTITY" && i.kind == Some(CompletionItemKind::Function))
        .expect("IDENTITY function");
    assert_eq!(identity.insert_text_format, Some(InsertTextFormat::PlainText));
    assert!(!identity.insert_text.as_deref().unwrap_or("").ends_with("()"));
}

#[test]
fn snippets_off_turns_function_into_plain_call() {
    let list = apply_snippet_config(complete_all(), false);
    let substring = list.items.iter().find(|i| i.label == "SUBSTRING").expect("SUBSTRING present");
    assert_eq!(substring.insert_text_format, Some(InsertTextFormat::PlainText));
    assert_eq!(substring.insert_text.as_deref(), Some("SUBSTRING()"));
    assert!(list.items.iter().all(|i| i.insert_text_format != Some(InsertTextFormat::Snippet)));
    let again = apply_snippet_config(list.clone(), false);
    assert_eq!(again, list);
}

#[test]
fn snippets_on_keeps_list() {
    let all = complete_all();
    assert_eq!(apply_snippet_config(all.clone(), true), all);
    let substring = all.items.iter().find(|i| i.label == "SUBSTRING").expect("SUBSTRING present");
    assert_eq!(substring.insert_text_format, Some(InsertTextFormat::Snippet));
    assert!(substring.insert_text.as_deref().unwrap_or("").contains("${1:"));
}

#[test]
fn complete_for_context_variable_decl_is_empty() {
    let st = SymbolTable::new();
    let list = complete_for_context("DECLARE @", &st, &CompletionConfig::default(), &Vec::new());
    assert!(list.items.is_empty(), "Variable declaration should not offer static items");
}

#[test]
fn variable_declaration_context_not_incomplete() {
    let st = SymbolTable::new();
    let list = complete_for_context("DECLARE @", &st, &CompletionConfig::default(), &Vec::new());
    assert!(list.items.is_empty());
    assert!(!list.is_incomplete, "Empty VariableDeclaration context must not set is_incomplete");
}

#[test]
fn complete_for_context_expression_returns_full_list() {
    let st = SymbolTable::new();
    let list = complete_for_context("SELECT ", &st, &CompletionConfig::default(), &Vec::new());
    assert!(list.items.iter().any(|i| i.label == "SELECT"));
    assert!(list.is_incomplete);
}

#[test]
fn test_complete_all_has_items() {
    let list = complete_all();
    assert!(!list.items.is_empty());
    assert!(!list.is_incomplete);
}

#[test]
fn test_complete_all_includes_select() {
    assert!(complete_all().items.iter().any(|i| i.label == "SELECT"));
}

#[test]
fn test_complete_all_includes_types() {
    let list = complete_all();
    assert!(list.items.iter().any(|i| i.label == "INT"));
    assert!(list.items.iter().any(|i| i.label == "VARCHAR"));
}

#[test]
fn test_complete_all_includes_functions() {
    let list = complete_all();
    assert!(list.items.iter().any(|i| i.label == "GETDATE"));
    assert!(list.items.iter().any(|i| i.label == "CONVERT"));
}

#[test]
fn test_function_has_detail() {
    let list = complete_all();
    let item = list.items.iter().find(|i| i.label == "GETDATE").expect("GETDATE present");
    assert!(item.detail.is_some());
    assert!(item.insert_text.is_some());
}

#[test]
fn test_function_snippet_format() {
    let list = complete_all();
    let item = list.items.iter().find(|i| i.label == "SUBSTRING").expect("SUBSTRING present");
    assert_eq!(item.insert_text_format, Some(InsertTextFormat::Snippet));
    let insert = item.insert_text.as_ref().unwrap();
    assert!(insert.contains("${1:"), "Expected snippet placeholder, got: {}", insert);
}

#[test]
fn test_complete_keywords() {
    let list = complete_keywords();
    assert!(!list.items.is_empty());
    assert!(list.items.iter().all(|i| i.kind == Some(CompletionItemKind::Keyword)));
}

#[test]
fn test_cast_uses_plain_text() {
    let list = complete_all();
    let item = list.items.iter().find(|i| i.label == "CAST").expect("CAST present");
    assert_eq!(item.insert_text_format, Some(InsertTextFormat::PlainText), "CAST should use PLAIN_TEXT, not SNIPPET");
    let text = item.insert_text.as_ref().unwrap();
    assert!(text.contains(" AS "), "CAST insert_text should preserve AS syntax, got: {text}");
}

#[test]
fn test_identity_no_empty_parens() {
    let list = complete_all();
    let item = list
        .items
        .iter()
        .find(|i| i.label == "IDENTITY" && i.kind == Some(CompletionItemKind::Function))
        .expect("IDENTITY function should exist");
    assert_eq!(item.insert_text_format, Some(InsertTextFormat::PlainText), "IDENTITY should use PLAIN_TEXT");
    let text = item.insert_text.as_ref().unwrap();
    assert!(!text.ends_with("()"), "IDENTITY should not have empty parens, got: {text}");
}

#[test]
fn test_complete_all_cache_returns_same_instance() {
    assert_eq!(complete_all().items.len(), complete_all().items.len());
}

#[test]
fn test_complete_keywords_cache_returns_same_count() {
    assert_eq!(complete_keywords().items.len(), complete_keywords().items.len());
}

#[test]
fn test_complete_all_includes_system_variables() {
    let list = complete_all();
    assert!(
        list.items.iter().any(|i| i.label == "@@ROWCOUNT" && i.kind == Some(CompletionItemKind::Variable)),
        "Should include @@ROWCOUNT system variable"
    );
}

#[test]
fn test_complete_all_no_duplicate_labels() {
    let list = complete_all();
    let mut labels: Vec<&str> = list.items.iter().map(|i| i.label.as_str()).collect();
    labels.sort();
    let deduped: Vec<&str> = labels.windows(2).filter(|w| w[0] == w[1]).map(|w| w[0]).collect();
    assert!(deduped.len() <= 5, "Too many duplicate labels: {:?}", deduped);
}

#[test]
fn config_snippets_disabled_strips_function_placeholders() {
    let st = SymbolTable::new();
    let cfg = CompletionConfig { enable_snippets: false, ..Default::default() };
    let list = complete_for_context("SELECT ", &st, &cfg, &Vec::new());
    let substring = list.items.iter().find(|i| i.label == "SUBSTRING").expect("SUBSTRING should be in completion list");
    assert_eq!(substring.insert_text_format, Some(InsertTextFormat::PlainText), "snippets disabled → plain text");
    assert_eq!(substring.insert_text.as_deref(), Some("SUBSTRING()"));
}

#[test]
fn config_snippets_enabled_keeps_default_behaviour() {
    let st = SymbolTable::new();
    let list = complete_for_context("SELECT ", &st, &CompletionConfig::default(), &Vec::new());
    let substring = list.items.iter().find(|i| i.label == "SUBSTRING").expect("SUBSTRING present");
    assert_eq!(substring.insert_text_format, Some(InsertTextFormat::Snippet));
    assert!(substring.insert_text.as_deref().unwrap_or("").contains("${1:"));
}

#[test]
fn expression_context_sets_incomplete_when_exceeds_threshold() {
    let threshold = incomplete_threshold();
    let st = SymbolTable::new();
    let list = complete_for_context("SELECT ", &st, &CompletionConfig::default(), &Vec::new());
    assert!(list.items.len() > threshold.saturating_sub(1), "Expression branch should return at least {} items", threshold);
    assert!(list.is_incomplete, "Expression context must signal is_incomplete=true so clients re-query");
}

#[test]
fn expression_context_no_user_variables_yields_plain_static_list() {
    let st = SymbolTable::new();
    let list = complete_for_context("SELECT ", &st, &CompletionConfig::default(), &Vec::new());
    assert!(
        !list.items.iter().any(|i| i.kind == Some(CompletionItemKind::Variable)
            && i.label.starts_with('@')
            && !i.label.starts_with("@@")),
        "no user variables should be present when none are declared"
    );
    assert!(list.items.iter().any(|i| i.label == "@@ROWCOUNT"));
}

