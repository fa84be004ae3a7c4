# ase_ls_core

Core logic of a language server for SAP ASE (Sybase) T-SQL, written in Verus:
every function of the library carries a `requires`/`ensures` contract that
Verus proves.

## Layout

- `src/` — the verified library.
  - `position`, `line_index`, `incremental`, `text`: positions, byte offsets,
    line starts, range patches and the text helpers they rest on.
  - `token`, `ast`: the tokens and the statement tree that a lexer and a
    parser hand to the library.
  - `analysis`, `span_resolve`: a document with its tokens, statements and
    symbols; where blocks and statements really end.
  - `symbol_table`, `symbol_build`, `symbol_store`: case-insensitive symbol
    maps, the symbol table of a document and the cross-document store.
  - `completion`, `hover`, `signature_help`, `definition`, `references`,
    `rename`, `diagnostics`, `formatting`, `folding`, `semantic_tokens`,
    `inlay_hints`, `code_lens`, `code_actions`, `document_links`, `symbols`:
    the editor features.
  - `config`, `db_docs`: settings and the built-in documentation tables.
- `tests/` — tests run against the compiled library. The lexer and parser
  that feed the library are separate programs, so `tests/analysis_features.rs`
  carries a small tokenizer and statement reader of its own to build the
  analyses its scenarios need.
- `app/` — protocol glue: settings read from JSON, conversions to and from
  `lsp_types`, and the document-link payload as JSON.

Laws that relate several functions are stated as public proof functions named
`law_*` next to the functions they speak of.
