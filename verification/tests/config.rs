use ase_ls_core::config::{
    CompletionConfig, Config, DocumentLinkConfig, FormattingConfig, InlayConfig, KeywordCase, Severity,
};

#[test]
fn defaults_reproduce_pre_132_behaviour() {
    let cfg = Config::default();
    assert_eq!(cfg.formatting.indent_width, 4);
    assert_eq!(cfg.formatting.keyword_case, KeywordCase::Upper);
    assert_eq!(cfg.diagnostics.select_star_severity, Severity::Warning);
    assert!(cfg.completion.enable_snippets);
    assert_eq!(cfg.formatting.indent_unit(), "    ");
}

fn fmt_with_width(width: u32) -> FormattingConfig {
    FormattingConfig { indent_width: width, ..Default::default() }
}

#[test]
fn indent_unit_respects_width() {
    assert_eq!(fmt_with_width(0).indent_unit(), "");
    assert_eq!(fmt_with_width(2).indent_unit(), "  ");
    assert_eq!(fmt_with_width(8).indent_unit(), "        ");
}

#[test]
fn completion_defaults_preserve_new_behaviour() {
    let comp = CompletionConfig::default();
    assert!(comp.enable_snippets);
    assert!(comp.enable_column_completion);
    assert!(comp.enable_variable_completion);
}

#[test]
fn inlay_defaults_are_true() {
    let inlay = InlayConfig::default();
    assert!(inlay.enable_variable_types);
    assert!(inlay.enable_parameter_names);
}

#[test]
fn document_link_defaults_are_true() {
    let document_link = DocumentLinkConfig::default();
    assert!(document_link.enable);
}

#[test]
fn inlay_config_defaults_enable_both_families() {
    let cfg = InlayConfig::default();
    assert!(cfg.enable_variable_types);
    assert!(cfg.enable_parameter_names);
}
