//! Document formatting: keywords upper-cased, a line break before each main
//! clause, single spaces between tokens, and a final line feed.

use crate::position::{Position, Range};
use crate::symbol_table::{to_uppercase, uppercase};
use crate::text::string_push;
use crate::token::{OwnedToken, TokenKind};
use vstd::prelude::*;
use vstd::string::*;

verus! {

/// A replacement of the text in a range.
pub struct TextEdit {
    /// Range replaced.
    pub range: Range,
    /// Replacement text.
    pub new_text: String,
}

/// The text a token is written as: keywords upper-cased; strings, comments
/// and every other token as they are.
pub open spec fn token_text(kind: TokenKind, text: Seq<char>) -> Seq<char> {
    match kind {
        TokenKind::String | TokenKind::NString | TokenKind::HexString => text,
        TokenKind::LineComment | TokenKind::BlockComment => text,
        _ => if kind.is_keyword() {
            uppercase(text)
        } else {
            text
        },
    }
}

/// The text a token is written as (see [`token_text`]).
pub fn format_token(kind: TokenKind, text: &str) -> (r: String)
    ensures
        r@ == token_text(kind, text@),
{
    match kind {
        TokenKind::String | TokenKind::NString | TokenKind::HexString => String::from_str(text),
        TokenKind::LineComment | TokenKind::BlockComment => String::from_str(text),
        _ => if kind.is_keyword() {
            to_uppercase(text)
        } else {
            String::from_str(text)
        },
    }
}

/// Keywords that start a main clause or statement.
pub open spec fn is_clause_kind(k: TokenKind) -> bool {
    match k {
        TokenKind::Select | TokenKind::From | TokenKind::Where | TokenKind::Group | TokenKind::Order
        | TokenKind::Having | TokenKind::Union | TokenKind::Insert | TokenKind::Update | TokenKind::Delete
        | TokenKind::Create | TokenKind::Alter | TokenKind::Drop | TokenKind::Declare | TokenKind::SetKw
        | TokenKind::If | TokenKind::Else | TokenKind::While | TokenKind::Return | TokenKind::Begin
        | TokenKind::End | TokenKind::Try | TokenKind::Catch => true,
        _ => false,
    }
}

/// Whether a line break goes before a token of kind `kind` that follows one
/// of kind `prev`: never at the start; always after GO, `;`, and after BEGIN
/// or END unless the token is END; otherwise before a main clause, except
/// FROM right after SELECT.
pub open spec fn newline_before(kind: TokenKind, prev: Option<TokenKind>) -> bool {
    match prev {
        None => false,
        Some(p) => if p == TokenKind::Go || p == TokenKind::Semicolon {
            true
        } else if (p == TokenKind::Begin || p == TokenKind::End) && kind != TokenKind::End {
            true
        } else if is_clause_kind(kind) {
            !(p == TokenKind::Select && kind == TokenKind::From)
        } else {
            false
        },
    }
}

/// Whether a line break goes before a token (see [`newline_before`]).
pub fn should_newline_before(kind: TokenKind, prev: Option<TokenKind>) -> (r: bool)
    ensures
        r == newline_before(kind, prev),
{
    let p = match prev {
        Some(p) => p,
        None => return false,
    };
    if matches!(p, TokenKind::Go) || matches!(p, TokenKind::Semicolon) {
        return true;
    }
    if matches!(p, TokenKind::Begin | TokenKind::End) && !matches!(kind, TokenKind::End) {
        return true;
    }
    match kind {
        TokenKind::Select | TokenKind::From | TokenKind::Where | TokenKind::Group | TokenKind::Order
        | TokenKind::Having | TokenKind::Union | TokenKind::Insert | TokenKind::Update | TokenKind::Delete
        | TokenKind::Create | TokenKind::Alter | TokenKind::Drop | TokenKind::Declare | TokenKind::SetKw
        | TokenKind::If | TokenKind::Else | TokenKind::While | TokenKind::Return | TokenKind::Begin
        | TokenKind::End | TokenKind::Try | TokenKind::Catch => {
            if matches!(p, TokenKind::Select) && matches!(kind, TokenKind::From) {
                return false;
            }
            true
        },
        _ => false,
    }
}

/// Whether a space goes before a token of kind `kind` that follows one of
/// kind `prev`: not at the start, not after `(`, not before `(`, `)`, `,`,
/// `;`, and not around `.`.
pub open spec fn space_before(kind: TokenKind, prev: Option<TokenKind>) -> bool {
    match prev {
        None => false,
        Some(p) => !(p == TokenKind::LParen || kind == TokenKind::RParen || kind == TokenKind::LParen
            || kind == TokenKind::Comma || kind == TokenKind::Semicolon || kind == TokenKind::Dot
            || p == TokenKind::Dot),
    }
}

/// Whether a space goes before a token (see [`space_before`]).
pub fn needs_space_before(kind: TokenKind, prev: Option<TokenKind>) -> (r: bool)
    ensures
        r == space_before(kind, prev),
{
    let p = match prev {
        Some(p) => p,
        None => return false,
    };
    if matches!(p, TokenKind::LParen) {
        return false;
    }
    if matches!(kind, TokenKind::RParen | TokenKind::LParen | TokenKind::Comma | TokenKind::Semicolon) {
        return false;
    }
    if matches!(kind, TokenKind::Dot) || matches!(p, TokenKind::Dot) {
        return false;
    }
    true
}

/// Whether a text ends with four spaces.
pub open spec fn ends_with_four_spaces(s: Seq<char>) -> bool {
    s.len() >= 4 && s[s.len() - 1] == ' ' && s[s.len() - 2] == ' ' && s[s.len() - 3] == ' ' && s[s.len() - 4] == ' '
}

/// The output after writing one more token.
pub open spec fn format_step(out: Seq<char>, prev: Option<TokenKind>, t: OwnedToken) -> Seq<char> {
    let o1 = if newline_before(t.kind, prev) { out.push('\n') } else { out };
    let sp = o1.len() > 0 && o1.last() != '\n' && !ends_with_four_spaces(o1) && space_before(t.kind, prev);
    let o2 = if sp { o1.push(' ') } else { o1 };
    o2 + token_text(t.kind, t.text@)
}

/// Number of tokens formatted: those before the first end-of-input token.
pub open spec fn formatted_count(ts: Seq<OwnedToken>) -> int
    decreases ts.len(),
{
    if ts.len() == 0 {
        0
    } else {
        let k = formatted_count(ts.drop_last());
        if k == ts.len() - 1 && ts.last().kind != TokenKind::Eof {
            ts.len() as int
        } else {
            k
        }
    }
}

/// The output after the first `n` tokens.
pub open spec fn format_upto(ts: Seq<OwnedToken>, n: int) -> Seq<char>
    decreases n,
{
    if n <= 0 {
        Seq::empty()
    } else {
        let prev = if n >= 2 { Some(ts[n - 2].kind) } else { None };
        format_step(format_upto(ts, n - 1), prev, ts[n - 1])
    }
}

/// The formatted text of a token sequence: the tokens before the first
/// end-of-input token written in turn, then a line feed unless the output is
/// empty or already ends with one.
pub open spec fn formatted(ts: Seq<OwnedToken>) -> Seq<char> {
    let out = format_upto(ts, formatted_count(ts));
    if out.len() > 0 && out.last() != '\n' {
        out.push('\n')
    } else {
        out
    }
}

/// No space is written around a dot: before a `.` token, and before the
/// token right after one, the formatter writes at most the line break that
/// the clause rules ask for, then the token's text.
pub proof fn law_no_space_around_dot(ts: Seq<OwnedToken>, i: int)
    requires
        1 <= i < ts.len(),
        ts[i].kind == TokenKind::Dot || ts[i - 1].kind == TokenKind::Dot,
    ensures
        format_upto(ts, i + 1) == (if newline_before(ts[i].kind, Some(ts[i - 1].kind)) {
            format_upto(ts, i).push('\n')
        } else {
            format_upto(ts, i)
        }) + token_text(ts[i].kind, ts[i].text@),
{
    assert(format_upto(ts, i + 1) == format_step(format_upto(ts, i), Some(ts[i - 1].kind), ts[i]));
}

/// No space is written after `(`, nor before `(`, `)`, `,` or `;`: before
/// such a token the formatter writes at most a line break, then the token's
/// text.
pub proof fn law_no_space_at_parens_and_separators(ts: Seq<OwnedToken>, i: int)
    requires
        1 <= i < ts.len(),
        ts[i - 1].kind == TokenKind::LParen || ts[i].kind == TokenKind::LParen || ts[i].kind == TokenKind::RParen
            || ts[i].kind == TokenKind::Comma || ts[i].kind == TokenKind::Semicolon,
    ensures
        format_upto(ts, i + 1) == (if newline_before(ts[i].kind, Some(ts[i - 1].kind)) {
            format_upto(ts, i).push('\n')
        } else {
            format_upto(ts, i)
        }) + token_text(ts[i].kind, ts[i].text@),
{
    assert(format_upto(ts, i + 1) == format_step(format_upto(ts, i), Some(ts[i - 1].kind), ts[i]));
}

/// Two other tokens on the same line are separated by exactly one space,
/// unless the line so far is empty or ends with four spaces.
pub proof fn law_one_space_between_words(ts: Seq<OwnedToken>, i: int)
    requires
        1 <= i < ts.len(),
        ts[i - 1].kind != TokenKind::LParen && ts[i - 1].kind != TokenKind::Dot,
        ts[i].kind != TokenKind::LParen && ts[i].kind != TokenKind::RParen && ts[i].kind != TokenKind::Comma
            && ts[i].kind != TokenKind::Semicolon && ts[i].kind != TokenKind::Dot,
        !newline_before(ts[i].kind, Some(ts[i - 1].kind)),
        format_upto(ts, i).len() > 0,
        format_upto(ts, i).last() != '\n',
        !ends_with_four_spaces(format_upto(ts, i)),
    ensures
        format_upto(ts, i + 1) == format_upto(ts, i).push(' ') + token_text(ts[i].kind, ts[i].text@),
{
    assert(format_upto(ts, i + 1) == format_step(format_upto(ts, i), Some(ts[i - 1].kind), ts[i]));
}

proof fn lemma_formatted_count(ts: Seq<OwnedToken>)
    ensures
        0 <= formatted_count(ts) <= ts.len(),
        forall|i: int| 0 <= i < formatted_count(ts) ==> ts[i].kind != TokenKind::Eof,
        formatted_count(ts) < ts.len() ==> ts[formatted_count(ts)].kind == TokenKind::Eof,
    decreases ts.len(),
{
    if ts.len() > 0 {
        let p = ts.drop_last();
        lemma_formatted_count(p);
        let k = formatted_count(p);
        if k < p.len() {
            assert(ts[k] == p[k]);
        }
        assert forall|i: int| 0 <= i < formatted_count(ts) && i < p.len() implies ts[i].kind != TokenKind::Eof by {
            assert(ts[i] == p[i]);
        }
    }
}

fn ends_with_spaces(s: &String) -> (r: bool)
    ensures
        r == ends_with_four_spaces(s@),
{
    let cs = crate::text::chars_of(s.as_str());
    let n = cs.len();
    n >= 4 && cs[n - 1] == ' ' && cs[n - 2] == ' ' && cs[n - 3] == ' ' && cs[n - 4] == ' '
}

fn last_is_newline(s: &String) -> (r: bool)
    ensures
        r == (s@.len() > 0 && s@.last() == '\n'),
{
    let cs = crate::text::chars_of(s.as_str());
    cs.len() > 0 && cs[cs.len() - 1] == '\n'
}

/// Format a token sequence (see [`formatted`]).
pub fn format_sql(tokens: &Vec<OwnedToken>) -> (r: String)
    ensures
        r@ == formatted(tokens@),
{
    let ghost ts = tokens@;
    let mut result = String::new();
    let mut prev_kind: Option<TokenKind> = None;
    let mut i: usize = 0;
    proof {
        lemma_formatted_count(ts);
    }
    while i < tokens.len()
        invariant_except_break
            ts == tokens@,
            i <= ts.len(),
            0 <= formatted_count(ts) <= ts.len(),
            formatted_count(ts) < ts.len() ==> ts[formatted_count(ts)].kind == TokenKind::Eof,
            forall|k: int| 0 <= k < i ==> ts[k].kind != TokenKind::Eof,
            result@ == format_upto(ts, i as int),
            prev_kind == (if i >= 1 { Some(ts[i - 1].kind) } else { None::<TokenKind> }),
        ensures
            i == formatted_count(ts),
            result@ == format_upto(ts, i as int),
        decreases ts.len() - i,
    {
        let token = &tokens[i];
        if matches!(token.kind, TokenKind::Eof) {
            proof {
                lemma_formatted_count(ts);
                let c = formatted_count(ts);
                if c < i {
                    assert(ts[c].kind != TokenKind::Eof);
                }
            }
            break;
        }
        if should_newline_before(token.kind, prev_kind) {
            string_push(&mut result, '\n');
        }
        let len_nonzero = result.as_str().unicode_len() > 0;
        if len_nonzero && !last_is_newline(&result) && !ends_with_spaces(&result)
            && needs_space_before(token.kind, prev_kind) {
            string_push(&mut result, ' ');
        }
        let text = format_token(token.kind, token.text.as_str());
        result.append(text.as_str());
        prev_kind = Some(token.kind);
        i = i + 1;
    }
    proof {
        if i == ts.len() {
            let c = formatted_count(ts);
            if c < i {
                assert(ts[c].kind != TokenKind::Eof);
            }
        }
    }
    if result.as_str().unicode_len() > 0 && !last_is_newline(&result) {
        string_push(&mut result, '\n');
    }
    result
}

/// Number of line feeds in `b`.
pub open spec fn count_lf(b: Seq<u8>) -> nat
    decreases b.len(),
{
    if b.len() == 0 {
        0
    } else {
        count_lf(b.drop_last()) + if b.last() == 10u8 { 1nat } else { 0nat }
    }
}

/// Number of lines as `str::lines` counts them: line feeds, plus one for
/// an unterminated last line.
pub open spec fn lines_count(b: Seq<u8>) -> nat {
    if b.len() == 0 {
        0
    } else {
        count_lf(b) + if b.last() == 10u8 { 0nat } else { 1nat }
    }
}

/// Index just past the last line feed before `e`, or zero.
pub open spec fn line_begin(b: Seq<u8>, e: int) -> int
    decreases e,
{
    if e <= 0 {
        0
    } else if b[e - 1] == 10u8 {
        e
    } else {
        line_begin(b, e - 1)
    }
}

/// Byte length of the last line as `str::lines` yields it: without its line
/// feed, and without a carriage return before that line feed.
pub open spec fn last_line_len(b: Seq<u8>) -> nat {
    if b.len() == 0 {
        0
    } else {
        let terminated = b.last() == 10u8;
        let e = if terminated { b.len() - 1 } else { b.len() as int };
        let st = line_begin(b, e);
        let l = e - st;
        if terminated && l > 0 && b[e - 1] == 13u8 {
            (l - 1) as nat
        } else {
            l as nat
        }
    }
}

proof fn lemma_line_begin(b: Seq<u8>, e: int)
    requires
        0 <= e <= b.len(),
    ensures
        0 <= line_begin(b, e) <= e,
    decreases e,
{
    if e > 0 && b[e - 1] != 10u8 {
        lemma_line_begin(b, e - 1);
    }
}

proof fn lemma_count_lf_le(b: Seq<u8>)
    ensures
        count_lf(b) <= b.len(),
    decreases b.len(),
{
    if b.len() > 0 {
        lemma_count_lf_le(b.drop_last());
    }
}

fn lines_and_last_len(source: &str) -> (r: (u32, u32))
    ensures
        r.0 == lines_count(source.spec_bytes()) as u32,
        r.1 == last_line_len(source.spec_bytes()) as u32,
{
    let b = source.as_bytes();
    let ghost bs = b@;
    let n = b.len();
    if n == 0 {
        return (0, 0);
    }
    let mut count: usize = 0;
    let mut i: usize = 0;
    while i < n
        invariant
            n == bs.len(),
            bs == b@,
            i <= n,
            count <= i,
            count == count_lf(bs.take(i as int)),
        decreases n - i,
    {
        assert(bs.take(i + 1).drop_last() =~= bs.take(i as int));
        if b[i] == 10u8 {
            count = count + 1;
        }
        i = i + 1;
    }
    assert(bs.take(n as int) =~= bs);
    let terminated = b[n - 1] == 10u8;
    proof {
        lemma_count_lf_le(bs.drop_last());
    }
    let lines: usize = if terminated { count } else { count + 1 };
    let e: usize = if terminated { n - 1 } else { n };
    let mut st = e;
    proof {
        lemma_line_begin(bs, e as int);
    }
    while st > 0 && b[st - 1] != 10u8
        invariant
            n == bs.len(),
            bs == b@,
            st <= e <= n,
            line_begin(bs, st as int) == line_begin(bs, e as int),
        decreases st,
    {
        st = st - 1;
    }
    let l = e - st;
    let last: usize = if terminated && l > 0 && b[e - 1] == 13u8 { l - 1 } else { l };
    (#[verifier::truncate] (lines as u32), #[verifier::truncate] (last as u32))
}

/// Formatting edits for a document: none when formatting leaves the text as
/// it is, otherwise one edit replacing everything from (0, 0) to (number of
/// lines, length of the last line) with the formatted text.
pub fn format(source: &str, tokens: &Vec<OwnedToken>) -> (r: Vec<TextEdit>)
    ensures
        formatted(tokens@) == source@ ==> r@.len() == 0,
        formatted(tokens@) != source@ ==> r@.len() == 1 && r@[0].new_text@ == formatted(tokens@)
            && r@[0].range == (Range {
                start: Position { line: 0, character: 0 },
                end: Position {
                    line: lines_count(source.spec_bytes()) as u32,
                    character: last_line_len(source.spec_bytes()) as u32,
                },
            }),
{
    let text = format_sql(tokens);
    let mut edits: Vec<TextEdit> = Vec::new();
    if crate::text::str_eq(text.as_str(), source) {
        return edits;
    }
    let (lines, last) = lines_and_last_len(source);
    edits.push(TextEdit {
        range: Range { start: Position { line: 0, character: 0 }, end: Position { line: lines, character: last } },
        new_text: text,
    });
    edits
}

} // verus!
