//! Server configuration received from the client.
//!
//! Every default reproduces the behaviour of an unconfigured server; a
//! setting only changes behaviour when the client sends it. Each section is
//! read on its own, so an invalid section falls back to its defaults without
//! touching the others.

use vstd::prelude::*;
use vstd::string::*;

verus! {

/// Root configuration: one section per configurable feature.
#[derive(Debug, Clone, Copy, PartialEq, Eq, Structural)]
pub struct Config {
    /// Formatting rules (indent width, keyword casing).
    pub formatting: FormattingConfig,
    /// Diagnostic behaviour.
    pub diagnostics: DiagnosticsConfig,
    /// Completion behaviour.
    pub completion: CompletionConfig,
    /// Inlay hint behaviour.
    pub inlay: InlayConfig,
    /// Document link behaviour.
    pub document_link: DocumentLinkConfig,
}

/// The configuration of an unconfigured server.
pub open spec fn default_config() -> Config {
    Config {
        formatting: FormattingConfig { indent_width: 4, keyword_case: KeywordCase::Upper },
        diagnostics: DiagnosticsConfig { select_star_severity: Severity::Warning },
        completion: CompletionConfig {
            enable_snippets: true,
            enable_column_completion: true,
            enable_variable_completion: true,
        },
        inlay: InlayConfig { enable_variable_types: true, enable_parameter_names: true },
        document_link: DocumentLinkConfig { enable: true },
    }
}

impl Default for Config {
    fn default() -> (c: Self)
        ensures
            c == default_config(),
    {
        Config {
            formatting: FormattingConfig::default(),
            diagnostics: DiagnosticsConfig::default(),
            completion: CompletionConfig::default(),
            inlay: InlayConfig::default(),
            document_link: DocumentLinkConfig::default(),
        }
    }
}

impl Config {
    /// Assemble a configuration from its sections as read from the client's
    /// settings: a section that was absent or could not be read (`None`)
    /// takes its defaults, the others are kept as they are.
    pub fn from_sections(
        formatting: Option<FormattingConfig>,
        diagnostics: Option<DiagnosticsConfig>,
        completion: Option<CompletionConfig>,
        inlay: Option<InlayConfig>,
        document_link: Option<DocumentLinkConfig>,
    ) -> (c: Config)
        ensures
            c.formatting == (match formatting {
                Some(f) => f,
                None => default_config().formatting,
            }),
            c.diagnostics == (match diagnostics {
                Some(d) => d,
                None => default_config().diagnostics,
            }),
            c.completion == (match completion {
                Some(x) => x,
                None => default_config().completion,
            }),
            c.inlay == (match inlay {
                Some(x) => x,
                None => default_config().inlay,
            }),
            c.document_link == (match document_link {
                Some(x) => x,
                None => default_config().document_link,
            }),
    {
        Config {
            formatting: match formatting {
                Some(f) => f,
                None => FormattingConfig::default(),
            },
            diagnostics: match diagnostics {
                Some(d) => d,
                None => DiagnosticsConfig::default(),
            },
            completion: match completion {
                Some(x) => x,
                None => CompletionConfig::default(),
            },
            inlay: match inlay {
                Some(x) => x,
                None => InlayConfig::default(),
            },
            document_link: match document_link {
                Some(x) => x,
                None => DocumentLinkConfig::default(),
            },
        }
    }
}

/// Keyword casing applied during formatting.
#[derive(Debug, Clone, Copy, PartialEq, Eq, Structural)]
pub enum KeywordCase {
    /// Upper-case all keywords (the default).
    Upper,
    /// Lower-case all keywords.
    Lower,
    /// Leave keyword casing untouched.
    Preserve,
}

impl Default for KeywordCase {
    fn default() -> (k: Self)
        ensures
            k == KeywordCase::Upper,
    {
        KeywordCase::Upper
    }
}

/// Formatting rules.
#[derive(Debug, Clone, Copy, PartialEq, Eq, Structural)]
pub struct FormattingConfig {
    /// Spaces per indent level.
    pub indent_width: u32,
    /// Keyword casing.
    pub keyword_case: KeywordCase,
}

impl Default for FormattingConfig {
    fn default() -> (f: Self)
        ensures
            f == default_config().formatting,
    {
        FormattingConfig { indent_width: 4, keyword_case: KeywordCase::Upper }
    }
}

impl FormattingConfig {
    /// The indent string for one level: `indent_width` spaces.
    pub fn indent_unit(&self) -> (s: String)
        ensures
            s@ == Seq::new(self.indent_width as nat, |i: int| ' '),
    {
        let mut s = String::new();
        let mut i: u32 = 0;
        proof {
            reveal_strlit(" ");
        }
        while i < self.indent_width
            invariant
                i <= self.indent_width,
                s@ == Seq::new(i as nat, |k: int| ' '),
                " "@ == seq![' '],
            decreases self.indent_width - i,
        {
            s.append(" ");
            i = i + 1;
            assert(s@ =~= Seq::new(i as nat, |k: int| ' '));
        }
        s
    }
}

/// Diagnostic severity that the client may select.
#[derive(Debug, Clone, Copy, PartialEq, Eq, Structural)]
pub enum Severity {
    /// Error (protocol code 1).
    Error,
    /// Warning (protocol code 2, the default).
    Warning,
    /// Information (protocol code 3).
    Information,
    /// Hint (protocol code 4).
    Hint,
}

impl Default for Severity {
    fn default() -> (s: Self)
        ensures
            s == Severity::Warning,
    {
        Severity::Warning
    }
}

impl Severity {
    /// The protocol's numeric code of this severity.
    pub fn code(self) -> (c: i32)
        ensures
            c == (match self {
                Severity::Error => 1i32,
                Severity::Warning => 2i32,
                Severity::Information => 3i32,
                Severity::Hint => 4i32,
            }),
    {
        match self {
            Severity::Error => 1,
            Severity::Warning => 2,
            Severity::Information => 3,
            Severity::Hint => 4,
        }
    }
}

/// Diagnostic behaviour.
#[derive(Debug, Clone, Copy, PartialEq, Eq, Structural)]
pub struct DiagnosticsConfig {
    /// Severity for `SELECT *` warnings.
    pub select_star_severity: Severity,
}

impl Default for DiagnosticsConfig {
    fn default() -> (d: Self)
        ensures
            d == default_config().diagnostics,
    {
        DiagnosticsConfig { select_star_severity: Severity::Warning }
    }
}

/// Completion behaviour.
#[derive(Debug, Clone, Copy, PartialEq, Eq, Structural)]
pub struct CompletionConfig {
    /// Emit function completions as snippets with parameter placeholders;
    /// otherwise as the plain name followed by `()`.
    pub enable_snippets: bool,
    /// Emit column-name completions after a table qualifier.
    pub enable_column_completion: bool,
    /// Prepend in-scope variable completions in expression contexts.
    pub enable_variable_completion: bool,
}

impl Default for CompletionConfig {
    fn default() -> (c: Self)
        ensures
            c == default_config().completion,
    {
        CompletionConfig {
            enable_snippets: true,
            enable_column_completion: true,
            enable_variable_completion: true,
        }
    }
}

/// Inlay hint behaviour.
#[derive(Debug, Clone, Copy, PartialEq, Eq, Structural)]
pub struct InlayConfig {
    /// Emit type annotations after `DECLARE` variables.
    pub enable_variable_types: bool,
    /// Emit parameter-name annotations at `EXEC` call sites.
    pub enable_parameter_names: bool,
}

impl Default for InlayConfig {
    fn default() -> (c: Self)
        ensures
            c == default_config().inlay,
    {
        InlayConfig { enable_variable_types: true, enable_parameter_names: true }
    }
}

/// Document link behaviour.
#[derive(Debug, Clone, Copy, PartialEq, Eq, Structural)]
pub struct DocumentLinkConfig {
    /// Emit document links for SQLCMD `:r` file-include directives.
    pub enable: bool,
}

impl Default for DocumentLinkConfig {
    fn default() -> (c: Self)
        ensures
            c == default_config().document_link,
    {
        DocumentLinkConfig { enable: true }
    }
}

} // verus!
