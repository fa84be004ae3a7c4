//! Completion: keyword, data type, function and system variable
//! candidates, and the cursor context that selects among them.

use crate::config::CompletionConfig;
use crate::db_docs::{
    datatype_table, datatypes, entries_view, function_table, functions, keyword_table, keywords,
    system_variable_table, system_variables, DocEntry, DocEntryView,
};
use crate::ast::{FromClause, Join, Statement, TableReference};
use crate::symbol_table::{
    entry_models, uppercase, value_of, ColumnModel, ColumnSymbol, ProcedureModel, SymbolTable,
    SymbolTableBuilder, TableModel, TableSymbol,
};
use crate::text::{
    before_last_word, char_is_alphanumeric, char_is_whitespace, chars_of, find_byte_from,
    first_byte_from, has_byte, has_byte_in, has_sub, has_sub_in, is_alnum, last_byte, last_word,
    last_word_start_of, rfind_byte, string_push, trim_end, trim_end_len, eq_ignore_ascii,
    eq_ignore_ascii_case,
};
use vstd::prelude::*;
use vstd::string::*;
use vstd::utf8::*;

verus! {

/// The decimal digit character of `d` (0 to 9).
pub open spec fn digit_char(d: nat) -> char {
    if d == 0 { '0' }
    else if d == 1 { '1' }
    else if d == 2 { '2' }
    else if d == 3 { '3' }
    else if d == 4 { '4' }
    else if d == 5 { '5' }
    else if d == 6 { '6' }
    else if d == 7 { '7' }
    else if d == 8 { '8' }
    else { '9' }
}

/// Decimal notation of `n`, without leading zeros.
pub open spec fn decimal(n: nat) -> Seq<char>
    decreases n,
{
    if n < 10 {
        seq![digit_char(n)]
    } else {
        decimal(n / 10).push(digit_char(n % 10))
    }
}

fn digit(d: usize) -> (c: char)
    requires
        d < 10,
    ensures
        c == digit_char(d as nat),
{
    if d == 0 { '0' }
    else if d == 1 { '1' }
    else if d == 2 { '2' }
    else if d == 3 { '3' }
    else if d == 4 { '4' }
    else if d == 5 { '5' }
    else if d == 6 { '6' }
    else if d == 7 { '7' }
    else if d == 8 { '8' }
    else { '9' }
}

/// Append the decimal notation of `n` to `s`.
pub(crate) fn push_decimal(s: &mut String, n: usize)
    ensures
        final(s)@ == old(s)@ + decimal(n as nat),
    decreases n,
{
    if n < 10 {
        string_push(s, digit(n));
    } else {
        push_decimal(s, n / 10);
        string_push(s, digit(n % 10));
    }
}

/// Snippet placeholder number `i + 1` around parameter `p`: `${i+1:p}`.
pub open spec fn placeholder(i: nat, p: Seq<char>) -> Seq<char> {
    seq!['$', '{'] + decimal(i + 1) + seq![':'] + p + seq!['}']
}

/// The placeholders of `ps`, separated by `", "`.
pub open spec fn placeholders(ps: Seq<Seq<char>>) -> Seq<char>
    decreases ps.len(),
{
    if ps.len() == 0 {
        Seq::empty()
    } else if ps.len() == 1 {
        placeholder(0, ps[0])
    } else {
        placeholders(ps.drop_last()) + seq![',', ' '] + placeholder((ps.len() - 1) as nat, ps.last())
    }
}

/// Snippet text of a function call: `NAME()` without parameters, otherwise
/// `NAME(${1:p1}, ${2:p2}, ...)`.
pub open spec fn function_snippet(name: Seq<char>, ps: Seq<Seq<char>>) -> Seq<char> {
    name + seq!['('] + placeholders(ps) + seq![')']
}

/// The texts of a sequence of string slices.
pub open spec fn strs_view(ps: Seq<&str>) -> Seq<Seq<char>> {
    ps.map_values(|p: &str| p@)
}

/// Build the snippet text of a function call from its name and parameter
/// names: `NAME()` or `NAME(${1:p1}, ${2:p2}, ...)`.
pub fn build_function_snippet(name: &str, params: &[&str]) -> (r: String)
    ensures
        r@ == function_snippet(name@, strs_view(params@)),
{
    let ghost ps = strs_view(params@);
    let mut s = String::from_str(name);
    string_push(&mut s, '(');
    let mut i: usize = 0;
    assert(ps.subrange(0, 0) =~= Seq::<Seq<char>>::empty());
    while i < params.len()
        invariant
            i <= params@.len(),
            ps == strs_view(params@),
            s@ == name@ + seq!['('] + placeholders(ps.subrange(0, i as int)),
        decreases params@.len() - i,
    {
        let ghost before = s@;
        if i > 0 {
            string_push(&mut s, ',');
            string_push(&mut s, ' ');
        }
        string_push(&mut s, '$');
        string_push(&mut s, '{');
        push_decimal(&mut s, i + 1);
        string_push(&mut s, ':');
        s.append(params[i]);
        string_push(&mut s, '}');
        proof {
            let sub = ps.subrange(0, i + 1);
            assert(sub.drop_last() =~= ps.subrange(0, i as int));
            assert(sub.last() == params@[i as int]@);
            if i == 0 {
                assert(s@ =~= before + placeholder(0, sub[0]));
            } else {
                assert(s@ =~= before + seq![',', ' '] + placeholder(i as nat, sub.last()));
            }
        }
        i = i + 1;
    }
    string_push(&mut s, ')');
    assert(ps.subrange(0, params@.len() as int) =~= ps);
    s
}

/// Whether `syntax` is a parenthesised, comma-separated call form: it has a
/// `(` before its last `)`, and the text between them holds no `" AS "`, no
/// quote and no `|`.
pub open spec fn comma_separated(b: Seq<u8>) -> bool {
    match (first_byte_from(b, 40u8, 0), last_byte(b, 41u8)) {
        (Some(open), Some(close)) => open < close && {
            let inner = b.subrange(open + 1, close);
            !has_sub(inner, seq![32u8, 65u8, 83u8, 32u8]) && !has_byte(inner, 39u8) && !has_byte(inner, 124u8)
        },
        _ => false,
    }
}

proof fn lemma_first_byte_from(b: Seq<u8>, c: u8, i: int)
    ensures
        first_byte_from(b, c, i) matches Some(k) ==> i <= k < b.len() && b[k] == c,
    decreases b.len() - i,
{
    if 0 <= i < b.len() && b[i] != c {
        lemma_first_byte_from(b, c, i + 1);
    }
}

proof fn lemma_last_byte(b: Seq<u8>, c: u8)
    ensures
        last_byte(b, c) matches Some(k) ==> 0 <= k < b.len() && b[k] == c,
    decreases b.len(),
{
    if b.len() > 0 && b.last() != c {
        lemma_last_byte(b.drop_last(), c);
    }
}

/// Whether a syntax string is a comma-separated call form that suits
/// snippet placeholders (byte-level: `(` before the last `)`, and between
/// them no `" AS "`, no `'` and no `|`).
pub fn is_comma_separated_syntax(syntax: &str) -> (r: bool)
    ensures
        r == comma_separated(syntax.spec_bytes()),
{
    let b = syntax.as_bytes();
    let open = find_byte_from(b, 40u8, 0);
    let close = rfind_byte(b, 41u8);
    proof {
        lemma_first_byte_from(b@, 40u8, 0);
        lemma_last_byte(b@, 41u8);
    }
    match (open, close) {
        (Some(open), Some(close)) => {
            if open < close {
                let needle: [u8; 4] = [32u8, 65u8, 83u8, 32u8];
                assert(needle@ =~= seq![32u8, 65u8, 83u8, 32u8]);
                !has_sub_in(b, open + 1, close, needle.as_slice()) && !has_byte_in(b, open + 1, close, 39u8)
                    && !has_byte_in(b, open + 1, close, 124u8)
            } else {
                false
            }
        },
        _ => false,
    }
}

/// Characters allowed in a column qualifier.
pub open spec fn qualifier_char(c: char) -> bool {
    is_alnum(c) || c == '_' || c == '#'
}

/// The qualifier of a prefix ending in `<qualifier>.`: the last
/// whitespace-separated word must end in `.`, and what precedes the dot
/// must be non-empty and made of letters, digits, `_` and `#`.
pub open spec fn column_qualifier(s: Seq<char>) -> Option<Seq<char>> {
    let w = last_word(s);
    if w.len() >= 2 && w.last() == '.' && (forall|i: int|
        0 <= i < w.len() - 1 ==> qualifier_char(#[trigger] w[i])) {
        Some(w.drop_last())
    } else {
        None
    }
}

/// The qualifier when the prefix ends in `<qualifier>.` (for example `u`
/// in `SELECT u.`), otherwise `None`.
pub fn detect_column_trigger(trimmed_prefix: &str) -> (r: Option<&str>)
    ensures
        match r {
            Some(q) => column_qualifier(trimmed_prefix@) == Some(q@),
            None => column_qualifier(trimmed_prefix@) is None,
        },
{
    let cs = chars_of(trimmed_prefix);
    let n = trim_end_len(&cs);
    let k = last_word_start_of(&cs, n);
    let ghost t = trim_end(cs@);
    let ghost w = last_word(cs@);
    assert(t == cs@.subrange(0, n as int));
    assert(w =~= cs@.subrange(k as int, n as int));
    if n - k < 2 || cs[n - 1] != '.' {
        proof {
            if w.len() >= 2 {
                assert(w.last() == cs@[n - 1]);
            }
        }
        return None;
    }
    let mut i = k;
    while i < n - 1
        invariant
            k <= i <= n - 1,
            n <= cs@.len(),
            w =~= cs@.subrange(k as int, n as int),
            w == last_word(trimmed_prefix@),
            forall|j: int| 0 <= j < i - k ==> qualifier_char(#[trigger] w[j]),
        decreases n - i,
    {
        let c = cs[i];
        if !(char_is_alphanumeric(c) || c == '_' || c == '#') {
            assert(w[i - k] == c);
            return None;
        }
        i = i + 1;
    }
    proof {
        assert(w.drop_last() =~= cs@.subrange(k as int, n - 1));
    }
    Some(trimmed_prefix.substring_char(k, n - 1))
}

/// Completion context, from the words before the cursor.
#[derive(Debug, Clone, Copy, PartialEq, Eq, Structural)]
pub enum CompletionContext {
    /// A table name is expected (after FROM, JOIN, INTO, UPDATE, TABLE).
    Table,
    /// A variable is being declared (`DECLARE @<name>`).
    VariableDeclaration,
    /// A column name is expected (after `<alias>.` or `<table>.`).
    Column,
    /// An expression is expected.
    Expression,
}

/// Whether `w` is one of FROM, JOIN, INTO, UPDATE, TABLE.
pub open spec fn is_table_keyword(w: Seq<char>) -> bool {
    w == "FROM"@ || w == "JOIN"@ || w == "INTO"@ || w == "UPDATE"@ || w == "TABLE"@
}

/// Context of a prefix: `Column` after `<qualifier>.`; else, on the
/// upper-cased prefix, `VariableDeclaration` when the last or next-to-last
/// word is DECLARE, `Table` when one of them is a table keyword, otherwise
/// `Expression`.
pub open spec fn context_of(prefix: Seq<char>) -> CompletionContext {
    if column_qualifier(trim_end(prefix)) is Some {
        CompletionContext::Column
    } else {
        let u = uppercase(trim_end(prefix));
        let last = last_word(u);
        let prev = last_word(before_last_word(u));
        if last == "DECLARE"@ || (prev.len() > 0 && prev == "DECLARE"@) {
            CompletionContext::VariableDeclaration
        } else if is_table_keyword(last) || (prev.len() > 0 && is_table_keyword(prev)) {
            CompletionContext::Table
        } else {
            CompletionContext::Expression
        }
    }
}

fn chars_eq(cs: &Vec<char>, lo: usize, hi: usize, w: &str) -> (r: bool)
    requires
        lo <= hi <= cs@.len(),
    ensures
        r == (cs@.subrange(lo as int, hi as int) == w@),
{
    let wc = chars_of(w);
    if hi - lo != wc.len() {
        return false;
    }
    let mut i: usize = 0;
    while i < wc.len()
        invariant
            i <= wc@.len(),
            hi - lo == wc@.len(),
            hi <= cs@.len(),
            wc@ == w@,
            forall|j: int| 0 <= j < i ==> cs@[lo + j] == wc@[j],
        decreases wc@.len() - i,
    {
        if cs[lo + i] != wc[i] {
            assert(cs@.subrange(lo as int, hi as int)[i as int] != w@[i as int]);
            return false;
        }
        i = i + 1;
    }
    assert(cs@.subrange(lo as int, hi as int) =~= w@);
    true
}

fn is_table_keyword_at(cs: &Vec<char>, lo: usize, hi: usize) -> (r: bool)
    requires
        lo <= hi <= cs@.len(),
    ensures
        r == is_table_keyword(cs@.subrange(lo as int, hi as int)),
{
    chars_eq(cs, lo, hi, "FROM") || chars_eq(cs, lo, hi, "JOIN") || chars_eq(cs, lo, hi, "INTO")
        || chars_eq(cs, lo, hi, "UPDATE") || chars_eq(cs, lo, hi, "TABLE")
}

/// The text of `s` before its trailing whitespace.
pub fn trim_end_str(s: &str) -> (r: &str)
    ensures
        r@ == trim_end(s@),
{
    let cs = chars_of(s);
    let n = trim_end_len(&cs);
    proof {
        crate::text::lemma_trim_end(s@);
    }
    s.substring_char(0, n)
}

/// Completion context of the text between the start of the line and the
/// cursor.
pub fn detect_context(prefix: &str) -> (c: CompletionContext)
    ensures
        c == context_of(prefix@),
{
    let trimmed = trim_end_str(prefix);
    if detect_column_trigger(trimmed).is_some() {
        return CompletionContext::Column;
    }
    let upper = crate::symbol_table::to_uppercase(trimmed);
    let cs = chars_of(upper.as_str());
    let n = trim_end_len(&cs);
    let k = last_word_start_of(&cs, n);
    let n2 = trim_end_len_prefix(&cs, k);
    let k2 = last_word_start_of(&cs, n2);
    let ghost u = uppercase(trim_end(prefix@));
    proof {
        let t = trim_end(u);
        assert(t == cs@.subrange(0, n as int));
        assert(last_word(u) =~= cs@.subrange(k as int, n as int));
        assert(before_last_word(u) =~= cs@.subrange(0, k as int));
        let b = before_last_word(u);
        assert(trim_end(b) == cs@.subrange(0, n2 as int));
        assert(cs@.subrange(0, n2 as int).subrange(0, k2 as int) =~= cs@.subrange(0, k2 as int));
        assert(last_word(b) =~= cs@.subrange(k2 as int, n2 as int));
    }
    let has_prev = k2 < n2;
    if chars_eq(&cs, k, n, "DECLARE") || (has_prev && chars_eq(&cs, k2, n2, "DECLARE")) {
        return CompletionContext::VariableDeclaration;
    }
    if is_table_keyword_at(&cs, k, n) || (has_prev && is_table_keyword_at(&cs, k2, n2)) {
        return CompletionContext::Table;
    }
    CompletionContext::Expression
}

/// `trim_end` of `cs[..k]`, as a length.
fn trim_end_len_prefix(cs: &Vec<char>, k: usize) -> (n: usize)
    requires
        k <= cs@.len(),
    ensures
        n <= k,
        cs@.subrange(0, n as int) == trim_end(cs@.subrange(0, k as int)),
{
    let mut n = k;
    assert(cs@.subrange(0, k as int).subrange(0, n as int) =~= cs@.subrange(0, n as int));
    while n > 0 && char_is_whitespace(cs[n - 1])
        invariant
            n <= k <= cs@.len(),
            trim_end(cs@.subrange(0, k as int)) == trim_end(cs@.subrange(0, n as int)),
        decreases n,
    {
        assert(cs@.subrange(0, n as int).drop_last() =~= cs@.subrange(0, n - 1));
        n = n - 1;
    }
    n
}

/// Kind of a completion item, with the protocol's numeric codes.
#[derive(Debug, Clone, Copy, PartialEq, Eq, Structural)]
pub enum CompletionItemKind {
    /// Keyword (code 14).
    Keyword,
    /// Data type (code 25).
    TypeParameter,
    /// Function (code 3).
    Function,
    /// Variable (code 6).
    Variable,
    /// Table (code 22).
    Struct,
    /// Column (code 5).
    Field,
}

/// Format of an item's insert text.
#[derive(Debug, Clone, Copy, PartialEq, Eq, Structural)]
pub enum InsertTextFormat {
    /// Plain text (code 1).
    PlainText,
    /// Snippet with placeholders (code 2).
    Snippet,
}

/// A completion candidate.
#[derive(Debug, Clone, PartialEq, Eq)]
pub struct CompletionItem {
    /// Text shown and matched.
    pub label: String,
    /// Item kind.
    pub kind: Option<CompletionItemKind>,
    /// Detail line.
    pub detail: Option<String>,
    /// Text inserted instead of the label.
    pub insert_text: Option<String>,
    /// Format of `insert_text`.
    pub insert_text_format: Option<InsertTextFormat>,
}

/// Content of a [`CompletionItem`].
pub struct ItemView {
    /// Text shown and matched.
    pub label: Seq<char>,
    /// Item kind.
    pub kind: Option<CompletionItemKind>,
    /// Detail line.
    pub detail: Option<Seq<char>>,
    /// Text inserted instead of the label.
    pub insert_text: Option<Seq<char>>,
    /// Format of `insert_text`.
    pub insert_text_format: Option<InsertTextFormat>,
}

/// The text of an optional string.
pub open spec fn opt_view(o: Option<String>) -> Option<Seq<char>> {
    match o {
        Some(s) => Some(s@),
        None => None,
    }
}

impl View for CompletionItem {
    type V = ItemView;

    open spec fn view(&self) -> ItemView {
        ItemView {
            label: self.label@,
            kind: self.kind,
            detail: opt_view(self.detail),
            insert_text: opt_view(self.insert_text),
            insert_text_format: self.insert_text_format,
        }
    }
}

/// The contents of a sequence of items.
pub open spec fn items_view(s: Seq<CompletionItem>) -> Seq<ItemView> {
    s.map_values(|i: CompletionItem| i@)
}

/// A list of completion candidates.
#[derive(Debug, Clone, PartialEq, Eq)]
pub struct CompletionList {
    /// Whether further typing should re-query the candidates.
    pub is_incomplete: bool,
    /// Candidates in order.
    pub items: Vec<CompletionItem>,
}

/// Item of a keyword.
pub open spec fn keyword_item(e: DocEntryView) -> ItemView {
    ItemView {
        label: e.name,
        kind: Some(CompletionItemKind::Keyword),
        detail: Some("T-SQL Keyword"@),
        insert_text: None,
        insert_text_format: None,
    }
}

/// Item of a data type.
pub open spec fn datatype_item(e: DocEntryView) -> ItemView {
    ItemView {
        label: e.name,
        kind: Some(CompletionItemKind::TypeParameter),
        detail: Some(e.description),
        insert_text: None,
        insert_text_format: None,
    }
}

/// Item of a function: a snippet for a comma-separated syntax, otherwise
/// the syntax text as plain text.
pub open spec fn function_item(e: DocEntryView) -> ItemView {
    let snippet = comma_separated(encode_utf8(e.syntax));
    ItemView {
        label: e.name,
        kind: Some(CompletionItemKind::Function),
        detail: Some(e.syntax + " \u{2014} "@ + e.description),
        insert_text: Some(if snippet { function_snippet(e.name, strs_view(e.params)) } else { e.syntax }),
        insert_text_format: Some(if snippet { InsertTextFormat::Snippet } else { InsertTextFormat::PlainText }),
    }
}

/// Item of a system variable.
pub open spec fn system_variable_item(e: DocEntryView) -> ItemView {
    ItemView {
        label: e.name,
        kind: Some(CompletionItemKind::Variable),
        detail: Some(e.description),
        insert_text: None,
        insert_text_format: None,
    }
}

/// Every static candidate: keywords, data types, functions, system variables.
pub open spec fn all_items() -> Seq<ItemView> {
    keyword_table().map_values(|e: DocEntryView| keyword_item(e))
        + datatype_table().map_values(|e: DocEntryView| datatype_item(e))
        + function_table().map_values(|e: DocEntryView| function_item(e))
        + system_variable_table().map_values(|e: DocEntryView| system_variable_item(e))
}

fn make_keyword_item(e: &DocEntry) -> (i: CompletionItem)
    ensures
        i@ == keyword_item(e@),
{
    CompletionItem {
        label: String::from_str(e.name),
        kind: Some(CompletionItemKind::Keyword),
        detail: Some(String::from_str("T-SQL Keyword")),
        insert_text: None,
        insert_text_format: None,
    }
}

fn make_datatype_item(e: &DocEntry) -> (i: CompletionItem)
    ensures
        i@ == datatype_item(e@),
{
    CompletionItem {
        label: String::from_str(e.name),
        kind: Some(CompletionItemKind::TypeParameter),
        detail: Some(String::from_str(e.description)),
        insert_text: None,
        insert_text_format: None,
    }
}

fn make_function_item(e: &DocEntry) -> (i: CompletionItem)
    ensures
        i@ == function_item(e@),
{
    let snippet = is_comma_separated_syntax(e.syntax);
    let (insert_text, format) = if snippet {
        (build_function_snippet(e.name, e.params.as_slice()), InsertTextFormat::Snippet)
    } else {
        (String::from_str(e.syntax), InsertTextFormat::PlainText)
    };
    let mut detail = String::from_str(e.syntax);
    detail.append(" \u{2014} ");
    detail.append(e.description);
    CompletionItem {
        label: String::from_str(e.name),
        kind: Some(CompletionItemKind::Function),
        detail: Some(detail),
        insert_text: Some(insert_text),
        insert_text_format: Some(format),
    }
}

fn make_system_variable_item(e: &DocEntry) -> (i: CompletionItem)
    ensures
        i@ == system_variable_item(e@),
{
    CompletionItem {
        label: String::from_str(e.name),
        kind: Some(CompletionItemKind::Variable),
        detail: Some(String::from_str(e.description)),
        insert_text: None,
        insert_text_format: None,
    }
}

/// Which item a documentation entry gives.
pub enum ItemMaker {
    /// Keyword item.
    Keyword,
    /// Data type item.
    DataType,
    /// Function item.
    Function,
    /// System variable item.
    SystemVariable,
}

/// The item of an entry made by `m`.
pub open spec fn item_by(m: ItemMaker, e: DocEntryView) -> ItemView {
    match m {
        ItemMaker::Keyword => keyword_item(e),
        ItemMaker::DataType => datatype_item(e),
        ItemMaker::Function => function_item(e),
        ItemMaker::SystemVariable => system_variable_item(e),
    }
}

fn push_items(out: &mut Vec<CompletionItem>, entries: &Vec<DocEntry>, m: ItemMaker)
    ensures
        items_view(final(out)@) == items_view(old(out)@) + entries_view(entries@).map_values(
            |e: DocEntryView| item_by(m, e),
        ),
{
    let ghost start = items_view(out@);
    let ghost n0 = out@.len();
    let mut i: usize = 0;
    while i < entries.len()
        invariant
            i <= entries@.len(),
            n0 == start.len(),
            out@.len() == n0 + i,
            forall|k: int| 0 <= k < n0 ==> out@[k]@ == start[k],
            forall|k: int| 0 <= k < i ==> out@[n0 + k]@ == item_by(m, entries@[k]@),
        decreases entries@.len() - i,
    {
        let e = &entries[i];
        let item = match m {
            ItemMaker::Keyword => make_keyword_item(e),
            ItemMaker::DataType => make_datatype_item(e),
            ItemMaker::Function => make_function_item(e),
            ItemMaker::SystemVariable => make_system_variable_item(e),
        };
        out.push(item);
        i = i + 1;
    }
    assert(items_view(out@) =~= start + entries_view(entries@).map_values(|e: DocEntryView| item_by(m, e)));
}

/// Every static candidate: keywords, data types, functions (snippets for
/// comma-separated syntaxes), system variables; the list is complete.
pub fn complete_all() -> (r: CompletionList)
    ensures
        !r.is_incomplete,
        items_view(r.items@) == all_items(),
{
    let mut items: Vec<CompletionItem> = Vec::new();
    assert(items_view(items@) =~= Seq::<ItemView>::empty());
    push_items(&mut items, &keywords(), ItemMaker::Keyword);
    push_items(&mut items, &datatypes(), ItemMaker::DataType);
    push_items(&mut items, &functions(), ItemMaker::Function);
    push_items(&mut items, &system_variables(), ItemMaker::SystemVariable);
    assert(items_view(items@) =~= all_items());
    CompletionList { is_incomplete: false, items }
}

/// Keyword candidates only.
pub fn complete_keywords() -> (r: CompletionList)
    ensures
        !r.is_incomplete,
        items_view(r.items@) == keyword_table().map_values(|e: DocEntryView| keyword_item(e)),
{
    let mut items: Vec<CompletionItem> = Vec::new();
    assert(items_view(items@) =~= Seq::<ItemView>::empty());
    push_items(&mut items, &keywords(), ItemMaker::Keyword);
    assert(items_view(items@) =~= keyword_table().map_values(|e: DocEntryView| keyword_item(e)));
    CompletionList { is_incomplete: false, items }
}

/// Number of candidates at or above which a list is marked incomplete:
/// the size of the static list.
pub fn incomplete_threshold() -> (n: usize)
    ensures
        n == all_items().len(),
{
    complete_all().items.len()
}

/// An item with snippets turned off: a snippet becomes the label followed
/// by `()` as plain text; other items are unchanged.
pub open spec fn without_snippet(i: ItemView) -> ItemView {
    if i.insert_text_format == Some(InsertTextFormat::Snippet) {
        ItemView {
            insert_text: Some(i.label + seq!['(', ')']),
            insert_text_format: Some(InsertTextFormat::PlainText),
            ..i
        }
    } else {
        i
    }
}

/// Items with every snippet turned into plain text.
pub open spec fn snippets_off(items: Seq<ItemView>) -> Seq<ItemView> {
    items.map_values(|i: ItemView| without_snippet(i))
}

/// With snippets disabled no item is left in snippet format, items that
/// were not snippets are unchanged, and disabling again changes nothing.
pub proof fn law_snippets_off(items: Seq<ItemView>)
    ensures
        forall|k: int|
            0 <= k < items.len() ==> (#[trigger] snippets_off(items)[k]).insert_text_format != Some(
                InsertTextFormat::Snippet,
            ),
        forall|k: int|
            0 <= k < items.len() && items[k].insert_text_format != Some(InsertTextFormat::Snippet) ==> (
            #[trigger] snippets_off(items)[k]) == items[k],
        snippets_off(snippets_off(items)) == snippets_off(items),
{
    assert(snippets_off(snippets_off(items)) =~= snippets_off(items));
}

fn clone_opt(o: &Option<String>) -> (r: Option<String>)
    ensures
        opt_view(r) == opt_view(*o),
{
    match o {
        Some(s) => Some(s.clone()),
        None => None,
    }
}

/// Apply the snippet setting to a list: unchanged when snippets are
/// enabled; otherwise every snippet item is turned into plain `label()`.
pub fn apply_snippet_config(list: CompletionList, enable_snippets: bool) -> (r: CompletionList)
    ensures
        r.is_incomplete == list.is_incomplete,
        enable_snippets ==> r == list,
        !enable_snippets ==> items_view(r.items@) == snippets_off(items_view(list.items@)),
{
    if enable_snippets {
        return list;
    }
    let ghost src = items_view(list.items@);
    let is_incomplete = list.is_incomplete;
    let old_items = list.items;
    let mut items: Vec<CompletionItem> = Vec::new();
    let mut i: usize = 0;
    while i < old_items.len()
        invariant
            i <= old_items@.len(),
            src == items_view(old_items@),
            items@.len() == i,
            forall|k: int| 0 <= k < i ==> items@[k]@ == without_snippet(src[k]),
        decreases old_items@.len() - i,
    {
        let it = &old_items[i];
        assert(src[i as int] == it@);
        let snippet = match it.insert_text_format {
            Some(InsertTextFormat::Snippet) => true,
            _ => false,
        };
        let label = it.label.clone();
        let detail = clone_opt(&it.detail);
        let item = if snippet {
            let mut t = label.clone();
            string_push(&mut t, '(');
            string_push(&mut t, ')');
            CompletionItem {
                label,
                kind: it.kind,
                detail,
                insert_text: Some(t),
                insert_text_format: Some(InsertTextFormat::PlainText),
            }
        } else {
            CompletionItem {
                label,
                kind: it.kind,
                detail,
                insert_text: clone_opt(&it.insert_text),
                insert_text_format: it.insert_text_format,
            }
        };
        proof {
            if snippet {
                assert(src[i as int].insert_text_format == Some(InsertTextFormat::Snippet));
                assert(item@.label == src[i as int].label);
                assert(item@.detail == src[i as int].detail);
                assert(item@.insert_text == Some(src[i as int].label + seq!['(', ')']));
            } else {
                assert(item@.insert_text == src[i as int].insert_text);
            }
        }
        assert(item@ == without_snippet(src[i as int]));
        items.push(item);
        i = i + 1;
    }
    assert(items_view(items@) =~= src.map_values(|i: ItemView| without_snippet(i)));
    CompletionList { is_incomplete, items }
}

/// The `(alias or name, table name)` pairs of a table source: a named table
/// gives one pair keyed by its alias, or by its name when it has none; a
/// join tree gives the pairs of its joins; a derived table gives none.
pub open spec fn table_ref_targets(tr: TableReference) -> Seq<(Seq<char>, Seq<char>)>
    decreases tr,
{
    match tr {
        TableReference::Table { name, alias } => seq![(
            match alias {
                Some(a) => a.name@,
                None => name.name@,
            },
            name.name@,
        )],
        TableReference::Joined { joins } => joins_targets(joins@),
        TableReference::Subquery { .. } => Seq::empty(),
    }
}

/// The pairs of a sequence of joins, in order.
pub open spec fn joins_targets(js: Seq<Join>) -> Seq<(Seq<char>, Seq<char>)>
    decreases js,
{
    if js.len() == 0 {
        Seq::empty()
    } else {
        joins_targets(js.drop_last()) + table_ref_targets(js.last().table)
    }
}

/// The pairs of a sequence of table sources, in order.
pub open spec fn refs_targets(rs: Seq<TableReference>) -> Seq<(Seq<char>, Seq<char>)>
    decreases rs,
{
    if rs.len() == 0 {
        Seq::empty()
    } else {
        refs_targets(rs.drop_last()) + table_ref_targets(rs.last())
    }
}

/// The pairs of the FROM clauses of a statement: a SELECT's table sources
/// then its joins; blocks, branches, loops and TRY/CATCH blocks are walked;
/// other statements give none.
pub open spec fn statement_targets(s: Statement) -> Seq<(Seq<char>, Seq<char>)>
    decreases s,
{
    match s {
        Statement::Select(sel) => match sel.from {
            Some(f) => refs_targets(f.tables@) + joins_targets(f.joins@),
            None => Seq::empty(),
        },
        Statement::Block(b) => statements_targets(b.statements@),
        Statement::If { then_branch, else_branch, .. } => statement_targets(*then_branch) + match else_branch {
            Some(e) => statement_targets(*e),
            None => Seq::empty(),
        },
        Statement::While { body, .. } => statement_targets(*body),
        Statement::TryCatch { try_block, catch_block, .. } => statements_targets(try_block.statements@)
            + statements_targets(catch_block.statements@),
        _ => Seq::empty(),
    }
}

/// The pairs of a sequence of statements, in order.
pub open spec fn statements_targets(ss: Seq<Statement>) -> Seq<(Seq<char>, Seq<char>)>
    decreases ss,
{
    if ss.len() == 0 {
        Seq::empty()
    } else {
        statements_targets(ss.drop_last()) + statement_targets(ss.last())
    }
}

/// The texts of a sequence of string pairs.
pub open spec fn pairs_view(v: Seq<(String, String)>) -> Seq<(Seq<char>, Seq<char>)> {
    v.map_values(|p: (String, String)| (p.0@, p.1@))
}

proof fn lemma_pairs_push(v: Seq<(String, String)>, p: (String, String))
    ensures
        pairs_view(v.push(p)) == pairs_view(v).push((p.0@, p.1@)),
{
    assert(pairs_view(v.push(p)) =~= pairs_view(v).push((p.0@, p.1@)));
}

fn collect_from_table_ref(tr: &TableReference, out: &mut Vec<(String, String)>)
    ensures
        pairs_view(final(out)@) == pairs_view(old(out)@) + table_ref_targets(*tr),
    decreases tr,
{
    let ghost o = pairs_view(out@);
    match tr {
        TableReference::Table { name, alias } => {
            let table_name = name.name.clone();
            let key = match alias {
                Some(a) => a.name.clone(),
                None => name.name.clone(),
            };
            proof {
                lemma_pairs_push(out@, (key, table_name));
            }
            out.push((key, table_name));
        },
        TableReference::Joined { joins } => {
            collect_from_joins(joins, out);
        },
        TableReference::Subquery { .. } => {},
    }
    assert(pairs_view(out@) =~= o + table_ref_targets(*tr));
}

fn collect_from_joins(js: &Vec<Join>, out: &mut Vec<(String, String)>)
    ensures
        pairs_view(final(out)@) == pairs_view(old(out)@) + joins_targets(js@),
    decreases js,
{
    let ghost o = pairs_view(out@);
    let mut i: usize = 0;
    assert(js@.take(0) =~= Seq::<Join>::empty());
    while i < js.len()
        invariant
            i <= js@.len(),
            pairs_view(out@) == o + joins_targets(js@.take(i as int)),
        decreases js@.len() - i,
    {
        assert(js@.take(i + 1).drop_last() =~= js@.take(i as int));
        collect_from_table_ref(&js[i].table, out);
        i = i + 1;
    }
    assert(js@.take(js@.len() as int) =~= js@);
}

fn collect_from_refs(rs: &Vec<TableReference>, out: &mut Vec<(String, String)>)
    ensures
        pairs_view(final(out)@) == pairs_view(old(out)@) + refs_targets(rs@),
{
    let ghost o = pairs_view(out@);
    let mut i: usize = 0;
    assert(rs@.take(0) =~= Seq::<TableReference>::empty());
    while i < rs.len()
        invariant
            i <= rs@.len(),
            pairs_view(out@) == o + refs_targets(rs@.take(i as int)),
        decreases rs@.len() - i,
    {
        assert(rs@.take(i + 1).drop_last() =~= rs@.take(i as int));
        collect_from_table_ref(&rs[i], out);
        i = i + 1;
    }
    assert(rs@.take(rs@.len() as int) =~= rs@);
}

fn collect_from_targets_in_stmt(stmt: &Statement, out: &mut Vec<(String, String)>)
    ensures
        pairs_view(final(out)@) == pairs_view(old(out)@) + statement_targets(*stmt),
    decreases stmt,
{
    let ghost o = pairs_view(out@);
    match stmt {
        Statement::Select(sel) => {
            match &sel.from {
                Some(f) => {
                    collect_from_refs(&f.tables, out);
                    collect_from_joins(&f.joins, out);
                },
                None => {},
            }
        },
        Statement::Block(b) => {
            collect_from_targets_in_stmts(&b.statements, out);
        },
        Statement::If { then_branch, else_branch, .. } => {
            collect_from_targets_in_stmt(then_branch, out);
            match else_branch {
                Some(e) => {
                    collect_from_targets_in_stmt(e, out);
                },
                None => {},
            }
        },
        Statement::While { body, .. } => {
            collect_from_targets_in_stmt(body, out);
        },
        Statement::TryCatch { try_block, catch_block, .. } => {
            collect_from_targets_in_stmts(&try_block.statements, out);
            collect_from_targets_in_stmts(&catch_block.statements, out);
        },
        _ => {},
    }
    assert(pairs_view(out@) =~= o + statement_targets(*stmt));
}

fn collect_from_targets_in_stmts(ss: &Vec<Statement>, out: &mut Vec<(String, String)>)
    ensures
        pairs_view(final(out)@) == pairs_view(old(out)@) + statements_targets(ss@),
    decreases ss,
{
    let ghost o = pairs_view(out@);
    let mut i: usize = 0;
    assert(ss@.take(0) =~= Seq::<Statement>::empty());
    while i < ss.len()
        invariant
            i <= ss@.len(),
            pairs_view(out@) == o + statements_targets(ss@.take(i as int)),
        decreases ss@.len() - i,
    {
        assert(ss@.take(i + 1).drop_last() =~= ss@.take(i as int));
        collect_from_targets_in_stmt(&ss[i], out);
        i = i + 1;
    }
    assert(ss@.take(ss@.len() as int) =~= ss@);
}

/// The `(alias or name, table name)` pairs of the FROM clauses of a
/// document's statements, in source order.
pub fn collect_from_targets(stmts: &Vec<Statement>) -> (r: Vec<(String, String)>)
    ensures
        pairs_view(r@) == statements_targets(stmts@),
{
    let mut out: Vec<(String, String)> = Vec::new();
    assert(pairs_view(out@) =~= Seq::<(Seq<char>, Seq<char>)>::empty());
    collect_from_targets_in_stmts(stmts, &mut out);
    assert(pairs_view(out@) =~= statements_targets(stmts@));
    out
}

/// The table names whose key matches `q`, ASCII letters compared
/// case-insensitively, in order.
pub open spec fn matching_tables(targets: Seq<(Seq<char>, Seq<char>)>, q: Seq<char>) -> Seq<Seq<char>>
    decreases targets.len(),
{
    if targets.len() == 0 {
        Seq::empty()
    } else {
        let prev = matching_tables(targets.drop_last(), q);
        if eq_ignore_ascii(targets.last().0, q) {
            prev.push(targets.last().1)
        } else {
            prev
        }
    }
}

/// The table a qualifier names: when exactly one FROM pair matches it, the
/// table of that pair; otherwise the table named by the qualifier itself.
pub open spec fn qualifier_table(
    tables: Seq<(Seq<char>, TableSymbol)>,
    targets: Seq<(Seq<char>, Seq<char>)>,
    q: Seq<char>,
) -> Option<TableSymbol> {
    let m = matching_tables(targets, q);
    if m.len() == 1 {
        value_of(tables, uppercase(m[0]))
    } else {
        value_of(tables, uppercase(q))
    }
}

/// The table whose columns a qualified column reference `qualifier.` offers:
/// resolved through the FROM clauses of `stmts` when exactly one of their
/// pairs has the qualifier as key, otherwise by the qualifier as a table
/// name.
pub fn resolve_columns_for_qualifier<'a>(
    qualifier: &str,
    stmts: &Vec<Statement>,
    symbol_table: &'a SymbolTable,
) -> (r: Option<&'a TableSymbol>)
    ensures
        match r {
            Some(t) => qualifier_table(symbol_table.tables@, statements_targets(stmts@), qualifier@) == Some(*t),
            None => qualifier_table(symbol_table.tables@, statements_targets(stmts@), qualifier@) is None,
        },
{
    let targets = collect_from_targets(stmts);
    let ghost tv = pairs_view(targets@);
    let mut count: usize = 0;
    let mut first: usize = 0;
    let mut i: usize = 0;
    assert(tv.take(0) =~= Seq::<(Seq<char>, Seq<char>)>::empty());
    while i < targets.len()
        invariant
            i <= targets@.len(),
            tv == pairs_view(targets@),
            count == matching_tables(tv.take(i as int), qualifier@).len(),
            count <= i,
            count > 0 ==> first < i && matching_tables(tv.take(i as int), qualifier@)[0] == targets@[first as int].1@,
        decreases targets@.len() - i,
    {
        assert(tv.take(i + 1).drop_last() =~= tv.take(i as int));
        assert(tv.take(i + 1).last() == (targets@[i as int].0@, targets@[i as int].1@));
        if eq_ignore_ascii_case(targets[i].0.as_str(), qualifier) {
            if count == 0 {
                first = i;
            }
            count = count + 1;
        }
        i = i + 1;
    }
    assert(tv.take(targets@.len() as int) =~= tv);
    if count == 1 {
        return SymbolTableBuilder::find_table(symbol_table, targets[first].1.as_str());
    }
    SymbolTableBuilder::find_table(symbol_table, qualifier)
}

/// Item of a table: kind Struct, detail "Temporary table" or "Table".
pub open spec fn table_item(t: TableModel) -> ItemView {
    ItemView {
        label: t.name,
        kind: Some(CompletionItemKind::Struct),
        detail: Some(if t.is_temporary { "Temporary table"@ } else { "Table"@ }),
        insert_text: None,
        insert_text_format: None,
    }
}

/// Item of a column: kind Field, detail the data type.
pub open spec fn column_item(c: ColumnModel) -> ItemView {
    ItemView {
        label: c.name,
        kind: Some(CompletionItemKind::Field),
        detail: Some(c.data_type),
        insert_text: None,
        insert_text_format: None,
    }
}

/// Item of a variable or parameter: kind Variable, detail the data type,
/// followed by ` (OUTPUT)` for an output parameter.
pub open spec fn variable_item(v: (Seq<char>, Seq<char>, bool)) -> ItemView {
    ItemView {
        label: v.0,
        kind: Some(CompletionItemKind::Variable),
        detail: Some(if v.2 { v.1 + " (OUTPUT)"@ } else { v.1 }),
        insert_text: None,
        insert_text_format: None,
    }
}

fn table_completion_item(t: &TableSymbol) -> (i: CompletionItem)
    ensures
        i@ == table_item(t@),
{
    CompletionItem {
        label: t.name.clone(),
        kind: Some(CompletionItemKind::Struct),
        detail: Some(if t.is_temporary { String::from_str("Temporary table") } else { String::from_str("Table") }),
        insert_text: None,
        insert_text_format: None,
    }
}

fn column_completion_item(c: &ColumnSymbol) -> (i: CompletionItem)
    ensures
        i@ == column_item(c@),
{
    CompletionItem {
        label: c.name.clone(),
        kind: Some(CompletionItemKind::Field),
        detail: Some(c.data_type.clone()),
        insert_text: None,
        insert_text_format: None,
    }
}

fn variable_completion_item(name: &str, data_type: &str, is_output: bool) -> (i: CompletionItem)
    ensures
        i@ == variable_item((name@, data_type@, is_output)),
{
    let detail = if is_output {
        let mut d = String::from_str(data_type);
        d.append(" (OUTPUT)");
        d
    } else {
        String::from_str(data_type)
    };
    CompletionItem {
        label: String::from_str(name),
        kind: Some(CompletionItemKind::Variable),
        detail: Some(detail),
        insert_text: None,
        insert_text_format: None,
    }
}

/// Variable candidates of the procedures, in order: each one's parameters,
/// then its body variables.
pub open spec fn procedure_candidates(ps: Seq<(Seq<char>, ProcedureModel)>) -> Seq<(Seq<char>, Seq<char>, bool)>
    decreases ps.len(),
{
    if ps.len() == 0 {
        Seq::empty()
    } else {
        let p = ps.last().1;
        procedure_candidates(ps.drop_last())
            + p.parameters.map_values(|x: crate::symbol_table::ParameterModel| (x.name, x.data_type, x.is_output))
            + p.body_variables.map_values(|x: crate::symbol_table::VariableModel| (x.name, x.data_type, false))
    }
}

/// Variable candidates of a symbol table: top-level variables, then the
/// parameters and body variables of every procedure, as (name, data type,
/// is output).
pub open spec fn variable_candidates(t: crate::symbol_table::SymbolTableModel) -> Seq<(Seq<char>, Seq<char>, bool)> {
    t.variables.map_values(|e: (Seq<char>, crate::symbol_table::VariableModel)| (e.1.name, e.1.data_type, false))
        + procedure_candidates(t.procedures)
}

/// Candidates without repeats: a candidate whose upper-case name equals the
/// upper-case name of an earlier one is dropped.
pub open spec fn dedup_upper(s: Seq<(Seq<char>, Seq<char>, bool)>) -> Seq<(Seq<char>, Seq<char>, bool)>
    decreases s.len(),
{
    if s.len() == 0 {
        Seq::empty()
    } else {
        let prev = dedup_upper(s.drop_last());
        if exists|j: int| 0 <= j < s.len() - 1 && uppercase(s[j].0) == uppercase(s.last().0) {
            prev
        } else {
            prev.push(s.last())
        }
    }
}

/// Variable and parameter items of a symbol table.
pub open spec fn variable_items(t: crate::symbol_table::SymbolTableModel) -> Seq<ItemView> {
    dedup_upper(variable_candidates(t)).map_values(|v: (Seq<char>, Seq<char>, bool)| variable_item(v))
}

/// The texts of a sequence of candidates.
pub open spec fn candidates_view(v: Seq<(String, String, bool)>) -> Seq<(Seq<char>, Seq<char>, bool)> {
    v.map_values(|c: (String, String, bool)| (c.0@, c.1@, c.2))
}

fn variable_candidate_list(t: &SymbolTable) -> (r: Vec<(String, String, bool)>)
    ensures
        candidates_view(r@) == variable_candidates(t@),
{
    let mut r: Vec<(String, String, bool)> = Vec::new();
    let ghost vs = t@.variables;
    let mut i: usize = 0;
    while i < t.variables.len()
        invariant
            i <= t.variables@.len(),
            vs == t@.variables,
            vs == entry_models(t.variables@),
            candidates_view(r@) == vs.take(i as int).map_values(
                |e: (Seq<char>, crate::symbol_table::VariableModel)| (e.1.name, e.1.data_type, false),
            ),
        decreases t.variables@.len() - i,
    {
        let (_, v) = t.variables.entry_at(i);
        let ghost before = r@;
        r.push((v.name.clone(), v.data_type.clone(), false));
        assert(candidates_view(r@) =~= candidates_view(before).push((v.name@, v.data_type@, false)));
        assert(vs.take(i + 1) =~= vs.take(i as int).push(vs[i as int]));
        assert(vs.take(i + 1).map_values(|e: (Seq<char>, crate::symbol_table::VariableModel)| (e.1.name, e.1.data_type, false))
            =~= vs.take(i as int).map_values(|e: (Seq<char>, crate::symbol_table::VariableModel)| (e.1.name, e.1.data_type, false)).push(
            (v.name@, v.data_type@, false)));
        i = i + 1;
    }
    assert(vs.take(vs.len() as int) =~= vs);
    let ghost top = candidates_view(r@);
    let ghost ps = t@.procedures;
    let mut p: usize = 0;
    assert(ps.take(0) =~= Seq::<(Seq<char>, ProcedureModel)>::empty());
    assert(top + procedure_candidates(ps.take(0)) =~= top);
    while p < t.procedures.len()
        invariant
            p <= t.procedures@.len(),
            ps == t@.procedures,
            ps == entry_models(t.procedures@),
            candidates_view(r@) == top + procedure_candidates(ps.take(p as int)),
        decreases t.procedures@.len() - p,
    {
        let (_, proc) = t.procedures.entry_at(p);
        assert(ps.take(p + 1).drop_last() =~= ps.take(p as int));
        assert(ps.take(p + 1).last().1 == proc@);
        let ghost base = candidates_view(r@);
        let mut j: usize = 0;
        while j < proc.parameters.len()
            invariant
                j <= proc.parameters@.len(),
                candidates_view(r@) == base + proc@.parameters.take(j as int).map_values(
                    |x: crate::symbol_table::ParameterModel| (x.name, x.data_type, x.is_output),
                ),
            decreases proc.parameters@.len() - j,
        {
            let q = &proc.parameters[j];
            let ghost before = r@;
            r.push((q.name.clone(), q.data_type.clone(), q.is_output));
            assert(candidates_view(r@) =~= candidates_view(before).push((q.name@, q.data_type@, q.is_output)));
            assert(proc@.parameters[j as int] == q@);
            assert(proc@.parameters.take(j + 1).map_values(|x: crate::symbol_table::ParameterModel| (x.name, x.data_type, x.is_output))
                =~= proc@.parameters.take(j as int).map_values(|x: crate::symbol_table::ParameterModel| (x.name, x.data_type, x.is_output)).push(
                (q.name@, q.data_type@, q.is_output)));
            j = j + 1;
        }
        assert(proc@.parameters.take(proc@.parameters.len() as int) =~= proc@.parameters);
        let ghost base2 = candidates_view(r@);
        let mut k: usize = 0;
        while k < proc.body_variables.len()
            invariant
                k <= proc.body_variables@.len(),
                candidates_view(r@) == base2 + proc@.body_variables.take(k as int).map_values(
                    |x: crate::symbol_table::VariableModel| (x.name, x.data_type, false),
                ),
            decreases proc.body_variables@.len() - k,
        {
            let q = &proc.body_variables[k];
            let ghost before = r@;
            r.push((q.name.clone(), q.data_type.clone(), false));
            assert(candidates_view(r@) =~= candidates_view(before).push((q.name@, q.data_type@, false)));
            assert(proc@.body_variables[k as int] == q@);
            assert(proc@.body_variables.take(k + 1).map_values(|x: crate::symbol_table::VariableModel| (x.name, x.data_type, false))
                =~= proc@.body_variables.take(k as int).map_values(|x: crate::symbol_table::VariableModel| (x.name, x.data_type, false)).push(
                (q.name@, q.data_type@, false)));
            k = k + 1;
        }
        assert(proc@.body_variables.take(proc@.body_variables.len() as int) =~= proc@.body_variables);
        p = p + 1;
    }
    assert(ps.take(ps.len() as int) =~= ps);
    r
}

fn contains_text(seen: &Vec<String>, s: &str) -> (r: bool)
    ensures
        r == exists|j: int| 0 <= j < seen@.len() && seen@[j]@ == s@,
{
    let mut i: usize = 0;
    while i < seen.len()
        invariant
            i <= seen@.len(),
            forall|j: int| 0 <= j < i ==> seen@[j]@ != s@,
        decreases seen@.len() - i,
    {
        if crate::text::str_eq(seen[i].as_str(), s) {
            return true;
        }
        i = i + 1;
    }
    false
}

/// Items for the variables and procedure parameters of a symbol table,
/// without repeats by upper-case name, first occurrence kept.
pub fn collect_variable_items(symbol_table: &SymbolTable) -> (r: Vec<CompletionItem>)
    ensures
        items_view(r@) == variable_items(symbol_table@),
{
    let cands = variable_candidate_list(symbol_table);
    let ghost cv = candidates_view(cands@);
    let mut seen: Vec<String> = Vec::new();
    let mut items: Vec<CompletionItem> = Vec::new();
    let mut i: usize = 0;
    assert(cv.take(0) =~= Seq::<(Seq<char>, Seq<char>, bool)>::empty());
    assert(items_view(items@) =~= Seq::<ItemView>::empty());
    while i < cands.len()
        invariant
            i <= cands@.len(),
            cv == candidates_view(cands@),
            seen@.len() == i,
            forall|j: int| 0 <= j < i ==> (#[trigger] seen@[j])@ == uppercase(cv[j].0),
            items_view(items@) == dedup_upper(cv.take(i as int)).map_values(
                |v: (Seq<char>, Seq<char>, bool)| variable_item(v),
            ),
        decreases cands@.len() - i,
    {
        let c = &cands[i];
        let up = crate::symbol_table::to_uppercase(c.0.as_str());
        let ghost t1 = cv.take(i + 1);
        assert(t1.drop_last() =~= cv.take(i as int));
        assert(t1.last() == cv[i as int]);
        assert(cv[i as int] == (c.0@, c.1@, c.2));
        let dup = contains_text(&seen, up.as_str());
        proof {
            if dup {
                let j = choose|j: int| 0 <= j < seen@.len() && seen@[j]@ == up@;
                assert(t1[j] == cv[j]);
            } else {
                assert forall|j: int| 0 <= j < t1.len() - 1 implies uppercase(t1[j].0) != uppercase(t1.last().0) by {
                    assert(t1[j] == cv[j]);
                    assert(seen@[j]@ == uppercase(cv[j].0));
                }
            }
        }
        if !dup {
            let ghost before = items@;
            items.push(variable_completion_item(c.0.as_str(), c.1.as_str(), c.2));
            assert(items_view(items@) =~= items_view(before).push(variable_item(cv[i as int])));
        }
        assert(items_view(items@) =~= dedup_upper(t1).map_values(|v: (Seq<char>, Seq<char>, bool)| variable_item(v)));
        seen.push(up);
        i = i + 1;
    }
    assert(cv.take(cv.len() as int) =~= cv);
    items
}

/// The qualifier of a prefix in column context: what precedes the final
/// dot, or the empty text when there is none.
pub open spec fn qualifier_of(prefix: Seq<char>) -> Seq<char> {
    match column_qualifier(trim_end(prefix)) {
        Some(q) => q,
        None => Seq::empty(),
    }
}

/// The items offered in a context, before the incompleteness mark.
pub open spec fn context_items(
    prefix: Seq<char>,
    t: &SymbolTable,
    enable_snippets: bool,
    stmts: Seq<Statement>,
) -> Seq<ItemView> {
    match context_of(prefix) {
        CompletionContext::VariableDeclaration => Seq::empty(),
        CompletionContext::Table => t@.tables.map_values(|e: (Seq<char>, TableModel)| table_item(e.1)),
        CompletionContext::Column => match qualifier_table(t.tables@, statements_targets(stmts), qualifier_of(prefix)) {
            Some(table) => table@.columns.map_values(|c: ColumnModel| column_item(c)),
            None => Seq::empty(),
        },
        CompletionContext::Expression => variable_items(t@) + if enable_snippets {
            all_items()
        } else {
            all_items().map_values(|i: ItemView| without_snippet(i))
        },
    }
}

fn items_from_tables(t: &SymbolTable) -> (r: Vec<CompletionItem>)
    ensures
        items_view(r@) == t@.tables.map_values(|e: (Seq<char>, TableModel)| table_item(e.1)),
{
    let mut r: Vec<CompletionItem> = Vec::new();
    let ghost ts = t@.tables;
    let mut i: usize = 0;
    while i < t.tables.len()
        invariant
            i <= t.tables@.len(),
            ts == entry_models(t.tables@),
            r@.len() == i,
            forall|k: int| 0 <= k < i ==> r@[k]@ == table_item(ts[k].1),
        decreases t.tables@.len() - i,
    {
        let (_, table) = t.tables.entry_at(i);
        r.push(table_completion_item(table));
        i = i + 1;
    }
    assert(items_view(r@) =~= ts.map_values(|e: (Seq<char>, TableModel)| table_item(e.1)));
    r
}

fn items_from_columns(table: &TableSymbol) -> (r: Vec<CompletionItem>)
    ensures
        items_view(r@) == table@.columns.map_values(|c: ColumnModel| column_item(c)),
{
    let mut r: Vec<CompletionItem> = Vec::new();
    let mut i: usize = 0;
    while i < table.columns.len()
        invariant
            i <= table.columns@.len(),
            r@.len() == i,
            forall|k: int| 0 <= k < i ==> r@[k]@ == column_item(table.columns@[k]@),
        decreases table.columns@.len() - i,
    {
        r.push(column_completion_item(&table.columns[i]));
        i = i + 1;
    }
    assert(items_view(r@) =~= table@.columns.map_values(|c: ColumnModel| column_item(c)));
    r
}

/// Candidates for the cursor context of `prefix` (the text from the start
/// of the line to the cursor): table names after a table keyword, nothing
/// while a variable is being declared, the columns of the qualified table
/// after `<qualifier>.`, and otherwise the variables and parameters of the
/// document followed by every static candidate (snippets turned into plain
/// `name()` when they are disabled). The list is marked incomplete when it
/// holds at least as many items as the static list.
pub fn complete_for_context(
    prefix: &str,
    symbol_table: &SymbolTable,
    config: &CompletionConfig,
    statements: &Vec<Statement>,
) -> (r: CompletionList)
    ensures
        items_view(r.items@) == context_items(prefix@, symbol_table, config.enable_snippets, statements@),
        r.is_incomplete == (context_of(prefix@) != CompletionContext::VariableDeclaration
            && r.items@.len() >= all_items().len()),
{
    match detect_context(prefix) {
        CompletionContext::VariableDeclaration => {
            let items: Vec<CompletionItem> = Vec::new();
            assert(items_view(items@) =~= Seq::<ItemView>::empty());
            CompletionList { is_incomplete: false, items }
        },
        CompletionContext::Table => {
            let items = items_from_tables(symbol_table);
            let threshold = incomplete_threshold();
            CompletionList { is_incomplete: items.len() >= threshold, items }
        },
        CompletionContext::Column => {
            let trimmed = trim_end_str(prefix);
            let qualifier = match detect_column_trigger(trimmed) {
                Some(q) => q,
                None => "",
            };
            proof {
                reveal_strlit("");
            }
            assert(qualifier@ == qualifier_of(prefix@));
            let items = match resolve_columns_for_qualifier(qualifier, statements, symbol_table) {
                Some(table) => items_from_columns(table),
                None => {
                    let v: Vec<CompletionItem> = Vec::new();
                    assert(items_view(v@) =~= Seq::<ItemView>::empty());
                    v
                },
            };
            let threshold = incomplete_threshold();
            CompletionList { is_incomplete: items.len() >= threshold, items }
        },
        CompletionContext::Expression => {
            let mut dynamic = collect_variable_items(symbol_table);
            let all = complete_all();
            let resp = apply_snippet_config(all, config.enable_snippets);
            let mut rest = resp.items;
            let ghost d = items_view(dynamic@);
            let ghost e = items_view(rest@);
            dynamic.append(&mut rest);
            assert(items_view(dynamic@) =~= d + e);
            let threshold = incomplete_threshold();
            CompletionList { is_incomplete: dynamic.len() >= threshold, items: dynamic }
        },
    }
}

} // verus!
