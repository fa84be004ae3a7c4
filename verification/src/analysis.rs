//! Document analysis: the derived data of one source text (line index,
//! tokens, statements, parse errors, symbol table) that the editor features
//! share.

use crate::ast::{ParseError, Statement};
use crate::line_index::{line_starts, position_offset, LineIndex};
use crate::position::Position;
use crate::symbol_table::SymbolTable;
use crate::text::{chars_of, ascii_lower};
use crate::token::{OwnedToken, TokenKind};
use vstd::prelude::*;
use vstd::string::*;
use vstd::utf8::*;

verus! {

/// Pre-computed analysis of a source document.
pub struct DocumentAnalysis {
    /// Source text.
    pub source: String,
    /// Line index of `source`.
    pub line_index: LineIndex,
    /// Tokens of `source`, in source order.
    pub tokens: Vec<OwnedToken>,
    /// Parsed statements.
    pub statements: Vec<Statement>,
    /// Parse errors.
    pub parse_errors: Vec<ParseError>,
    /// Symbols that `source` defines.
    pub symbol_table: SymbolTable,
}

/// OwnedToken starts do not decrease along the sequence.
pub open spec fn tokens_sorted(tokens: Seq<OwnedToken>) -> bool {
    forall|i: int, j: int| 0 <= i <= j < tokens.len() ==> tokens[i].span.start <= tokens[j].span.start
}

/// Index of the first line feed at or after `i`, or the length of `cs`.
pub open spec fn next_line_feed(cs: Seq<char>, i: int) -> int
    decreases cs.len() - i,
{
    if i >= cs.len() {
        cs.len() as int
    } else if cs[i] == '\n' {
        i
    } else {
        next_line_feed(cs, i + 1)
    }
}

/// Character index at which line `line` starts, when the text has that line.
pub open spec fn line_start_char(cs: Seq<char>, line: nat) -> Option<int>
    decreases line,
{
    if line == 0 {
        Some(0)
    } else {
        match line_start_char(cs, (line - 1) as nat) {
            Some(s) => {
                let e = next_line_feed(cs, s);
                if e < cs.len() {
                    Some(e + 1)
                } else {
                    None
                }
            },
            None => None,
        }
    }
}

/// A text without its trailing carriage returns.
pub open spec fn trim_cr(s: Seq<char>) -> Seq<char>
    decreases s.len(),
{
    if s.len() > 0 && s.last() == '\r' {
        trim_cr(s.drop_last())
    } else {
        s
    }
}

/// The text of line `line` without its line ending (trailing carriage
/// returns removed); empty for a line past the end.
pub open spec fn line_text(cs: Seq<char>, line: nat) -> Seq<char> {
    match line_start_char(cs, line) {
        Some(s) => trim_cr(cs.subrange(s, next_line_feed(cs, s))),
        None => Seq::empty(),
    }
}

pub(crate) proof fn lemma_next_line_feed(cs: Seq<char>, i: int)
    requires
        0 <= i <= cs.len(),
    ensures
        i <= next_line_feed(cs, i) <= cs.len(),
    decreases cs.len() - i,
{
    if i < cs.len() && cs[i] != '\n' {
        lemma_next_line_feed(cs, i + 1);
    }
}

pub(crate) fn next_lf(cs: &Vec<char>, i: usize) -> (e: usize)
    requires
        i <= cs@.len(),
    ensures
        e == next_line_feed(cs@, i as int),
        i <= e <= cs@.len(),
{
    let mut e = i;
    proof {
        lemma_next_line_feed(cs@, i as int);
    }
    while e < cs.len() && cs[e] != '\n'
        invariant
            i <= e <= cs@.len(),
            next_line_feed(cs@, e as int) == next_line_feed(cs@, i as int),
        decreases cs@.len() - e,
    {
        e = e + 1;
    }
    e
}

/// Whether `b` holds `p` somewhere, ASCII letters compared
/// case-insensitively.
pub open spec fn has_window_ci(b: Seq<u8>, p: Seq<u8>) -> bool {
    exists|i: int| 0 <= i && i + p.len() <= b.len() && #[trigger] window_ci(b, p, i)
}

/// Whether `b` holds `p` at `i`, ASCII letters compared case-insensitively.
pub open spec fn window_ci(b: Seq<u8>, p: Seq<u8>, i: int) -> bool {
    forall|k: int| 0 <= k < p.len() ==> ascii_lower_byte(#[trigger] b[i + k]) == ascii_lower_byte(p[k])
}

/// The ASCII lower-case form of a byte.
pub open spec fn ascii_lower_byte(c: u8) -> u8 {
    if 65 <= c <= 90 {
        (c + 32) as u8
    } else {
        c
    }
}

fn lower_byte(c: u8) -> (r: u8)
    ensures
        r == ascii_lower_byte(c),
{
    if 65 <= c && c <= 90 {
        c + 32
    } else {
        c
    }
}

fn contains_ci(b: &[u8], p: &[u8]) -> (r: bool)
    ensures
        r == has_window_ci(b@, p@),
{
    let blen = b.len();
    let plen = p.len();
    if plen > blen {
        return false;
    }
    if plen == 0 {
        assert(window_ci(b@, p@, 0));
        return true;
    }
    let last = blen - plen;
    let mut i: usize = 0;
    while i <= last
        invariant
            blen == b@.len(),
            plen == p@.len(),
            0 < plen <= blen,
            last == blen - plen,
            i <= last + 1,
            forall|j: int| 0 <= j < i ==> !#[trigger] window_ci(b@, p@, j),
        decreases last + 1 - i,
    {
        let mut k: usize = 0;
        let mut same = true;
        while k < plen
            invariant
                blen == b@.len(),
                plen == p@.len(),
                last == blen - plen,
                i <= last,
                k <= plen,
                same == (forall|m: int| 0 <= m < k ==> ascii_lower_byte(#[trigger] b@[i + m]) == ascii_lower_byte(p@[m])),
            decreases plen - k,
        {
            if lower_byte(b[i + k]) != lower_byte(p[k]) {
                same = false;
            }
            k = k + 1;
        }
        if same {
            assert(window_ci(b@, p@, i as int));
            return true;
        }
        i = i + 1;
    }
    proof {
        if has_window_ci(b@, p@) {
            let j = choose|j: int| 0 <= j && j + p@.len() <= b@.len() && #[trigger] window_ci(b@, p@, j);
            assert(j <= last);
        }
    }
    false
}

/// Index of the first `CREATE TABLE <identifier>` at or after `i`.
pub open spec fn create_table_at(ts: Seq<OwnedToken>, i: int) -> Option<int>
    decreases ts.len() - i,
{
    if i + 2 >= ts.len() {
        None
    } else if ts[i].kind == TokenKind::Create && ts[i + 1].kind == TokenKind::Table
        && ts[i + 2].kind == TokenKind::Ident {
        Some(i)
    } else {
        create_table_at(ts, i + 1)
    }
}

/// Index of the first `(` at or after `j`.
pub open spec fn lparen_from(ts: Seq<OwnedToken>, j: int) -> Option<int>
    decreases ts.len() - j,
{
    if j >= ts.len() {
        None
    } else if ts[j].kind == TokenKind::LParen {
        Some(j)
    } else {
        lparen_from(ts, j + 1)
    }
}

/// Index of the `)` at or after `k` that brings the depth, `depth` before
/// `k`, back to zero.
pub open spec fn closing_from(ts: Seq<OwnedToken>, k: int, depth: int) -> Option<int>
    decreases ts.len() - k,
{
    if k >= ts.len() || k < 0 {
        None
    } else {
        match ts[k].kind {
            TokenKind::LParen => closing_from(ts, k + 1, depth + 1),
            TokenKind::RParen => if depth - 1 == 0 {
                Some(k)
            } else {
                closing_from(ts, k + 1, depth - 1)
            },
            _ => closing_from(ts, k + 1, depth),
        }
    }
}

/// End offset of the `)` closing the column list of the first
/// `CREATE TABLE <identifier> (...)`.
pub open spec fn create_table_end(ts: Seq<OwnedToken>) -> Option<int> {
    match create_table_at(ts, 0) {
        Some(i) => match lparen_from(ts, i + 3) {
            Some(j) => match closing_from(ts, j, 0) {
                Some(k) => Some(ts[k].span.end as int),
                None => None,
            },
            None => None,
        },
        None => None,
    }
}

/// Byte offset just past the `)` that closes the first `CREATE TABLE
/// <identifier> (...)`: `None` when there is no such statement or its
/// parentheses do not balance.
pub fn find_create_table_end(tokens: &Vec<OwnedToken>) -> (r: Option<usize>)
    ensures
        match r {
            Some(e) => create_table_end(tokens@) == Some(e as int),
            None => create_table_end(tokens@) is None,
        },
{
    let ghost ts = tokens@;
    let n = tokens.len();
    if n < 3 {
        return None;
    }
    let mut i: usize = 0;
    while i < n - 2
        invariant
            n == ts.len(),
            n >= 3,
            ts == tokens@,
            i <= n - 2,
            create_table_at(ts, 0) == create_table_at(ts, i as int),
        decreases n - i,
    {
        if matches!(tokens[i].kind, TokenKind::Create) && matches!(tokens[i + 1].kind, TokenKind::Table)
            && matches!(tokens[i + 2].kind, TokenKind::Ident) {
            assert(create_table_at(ts, i as int) == Some(i as int));
            let mut j = i + 3;
            while j < n && !matches!(tokens[j].kind, TokenKind::LParen)
                invariant
                    i + 3 <= j <= n,
                    create_table_at(ts, 0) == Some(i as int),
                    n == ts.len(),
                    ts == tokens@,
                    lparen_from(ts, i + 3) == lparen_from(ts, j as int),
                decreases n - j,
            {
                j = j + 1;
            }
            if j >= n {
                return None;
            }
            assert(lparen_from(ts, j as int) == Some(j as int));
            let mut depth: usize = 0;
            let mut k = j;
            while k < n
                invariant
                    j <= k <= n,
                    j < n,
                    n == ts.len(),
                    ts == tokens@,
                    ts[j as int].kind == TokenKind::LParen,
                    create_table_at(ts, 0) == Some(i as int),
                    lparen_from(ts, i + 3) == Some(j as int),
                    depth <= k - j,
                    k > j ==> depth >= 1,
                    closing_from(ts, j as int, 0) == closing_from(ts, k as int, depth as int),
                decreases n - k,
            {
                match tokens[k].kind {
                    TokenKind::LParen => {
                        depth = depth + 1;
                    },
                    TokenKind::RParen => {
                        depth = depth - 1;
                        if depth == 0 {
                            return Some(tokens[k].span.end as usize);
                        }
                    },
                    _ => {},
                }
                k = k + 1;
            }
            return None;
        }
        i = i + 1;
    }
    None
}

/// Whether the symbol table needs the CREATE TABLE fallback: it has no
/// table although the source mentions `CREATE TABLE` (ASCII letters in any
/// case).
pub fn needs_table_fallback(source: &str, table: &SymbolTable) -> (r: bool)
    ensures
        r == (table.tables@.len() == 0 && has_window_ci(source.spec_bytes(), "CREATE TABLE"@.map_values(|c: char| c as u8))),
{
    if !table.tables.is_empty() {
        return false;
    }
    let pat = "CREATE TABLE".as_bytes();
    proof {
        reveal_strlit("CREATE TABLE");
        assert(is_ascii("CREATE TABLE"));
        is_ascii_spec_bytes("CREATE TABLE");
        assert(pat@ =~= "CREATE TABLE"@.map_values(|c: char| c as u8));
    }
    contains_ci(source.as_bytes(), pat)
}

/// Where the CREATE TABLE fallback cuts the source: the end of the first
/// `CREATE TABLE` column list, when that is a character boundary of the
/// source.
pub fn fallback_cut(source: &str, tokens: &Vec<OwnedToken>) -> (r: Option<usize>)
    ensures
        match r {
            Some(e) => create_table_end(tokens@) == Some(e as int) && e <= source.spec_bytes().len()
                && is_char_boundary(source.spec_bytes(), e as int),
            None => !(create_table_end(tokens@) matches Some(e) && e <= source.spec_bytes().len()
                && is_char_boundary(source.spec_bytes(), e)),
        },
{
    match find_create_table_end(tokens) {
        Some(e) => {
            if e <= source.as_bytes().len() && source.is_char_boundary(e) {
                Some(e)
            } else {
                None
            }
        },
        None => None,
    }
}

/// The symbol table kept after the fallback: the table of the cut source
/// when it has a table, otherwise the table of the whole source.
pub fn prefer_partial(full: SymbolTable, partial: SymbolTable) -> (r: SymbolTable)
    ensures
        partial.tables@.len() > 0 ==> r == partial,
        partial.tables@.len() == 0 ==> r == full,
{
    if !partial.tables.is_empty() {
        partial
    } else {
        full
    }
}

pub(crate) proof fn lemma_no_line_after(cs: Seq<char>, k: nat, line: nat)
    requires
        line_start_char(cs, k) is None,
        k <= line,
    ensures
        line_start_char(cs, line) is None,
    decreases line - k,
{
    if k < line {
        lemma_no_line_after(cs, k, (line - 1) as nat);
    }
}

/// OwnedToken `i` is the last one starting at or before `offset`, and `offset`
/// is before its end.
pub open spec fn token_covers(tokens: Seq<OwnedToken>, offset: int, i: int) -> bool {
    &&& 0 <= i < tokens.len()
    &&& tokens[i].span.start <= offset
    &&& (i + 1 == tokens.len() || tokens[i + 1].span.start > offset)
    &&& offset < tokens[i].span.end
}

/// The token covering `offset`, if any.
pub open spec fn covering_token(tokens: Seq<OwnedToken>, offset: int) -> Option<int> {
    if exists|i: int| token_covers(tokens, offset, i) {
        Some(choose|i: int| token_covers(tokens, offset, i))
    } else {
        None
    }
}

/// With tokens in source order, at most one token covers an offset.
pub proof fn lemma_covering_unique(tokens: Seq<OwnedToken>, offset: int, i: int)
    requires
        tokens_sorted(tokens),
        token_covers(tokens, offset, i),
    ensures
        covering_token(tokens, offset) == Some(i),
{
    let j = choose|j: int| token_covers(tokens, offset, j);
    if i < j {
        assert(tokens[i + 1].span.start <= tokens[j].span.start);
    } else if j < i {
        assert(tokens[j + 1].span.start <= tokens[i].span.start);
    }
}

impl DocumentAnalysis {
    /// The line index is the one of the source text.
    pub open spec fn index_matches(&self) -> bool {
        self.line_index@ == line_starts(encode_utf8(self.source@))
    }

    /// Assemble an analysis from a source text, its tokens, statements,
    /// parse errors and symbols; the line index is computed here.
    pub fn from_parts(
        source: String,
        tokens: Vec<OwnedToken>,
        statements: Vec<Statement>,
        parse_errors: Vec<ParseError>,
        symbol_table: SymbolTable,
    ) -> (a: DocumentAnalysis)
        requires
            encode_utf8(source@).len() <= u32::MAX,
        ensures
            a.index_matches(),
            a.source == source,
            a.tokens == tokens,
            a.statements == statements,
            a.parse_errors == parse_errors,
            a.symbol_table == symbol_table,
    {
        let line_index = LineIndex::new(source.as_str());
        DocumentAnalysis { source, line_index, tokens, statements, parse_errors, symbol_table }
    }

    /// The token at an editor position, and its index (see
    /// [`DocumentAnalysis::find_token_at`]).
    pub fn find_token_at_position(&self, position: Position) -> (r: Option<(&OwnedToken, usize)>)
        requires
            self.index_matches(),
        ensures
            ({
                let offset = position_offset(self.line_index@, encode_utf8(self.source@), position);
                &&& r matches Some((t, i)) ==> i < self.tokens@.len() && *t == self.tokens@[i as int]
                    && t.span.start <= offset && offset < t.span.end
                &&& tokens_sorted(self.tokens@) ==> (r is Some <==> exists|i: int| token_covers(self.tokens@, offset, i))
                &&& tokens_sorted(self.tokens@) ==> (r matches Some((t, i)) ==> token_covers(self.tokens@, offset, i as int))
            }),
    {
        let offset = self.line_index.position_to_offset(self.source.as_str(), position);
        self.find_token_at(offset)
    }

    /// The text of line `line`, without its line ending (trailing carriage
    /// returns removed); empty for a line past the end.
    pub fn get_line(&self, line: u32) -> (r: &str)
        ensures
            r@ == line_text(self.source@, line as nat),
    {
        let cs = chars_of(self.source.as_str());
        let mut s: usize = 0;
        let mut k: u32 = 0;
        while k < line
            invariant
                k <= line,
                cs@ == self.source@,
                s <= cs@.len(),
                line_start_char(cs@, k as nat) == Some(s as int),
            decreases line - k,
        {
            let e = next_lf(&cs, s);
            if e >= cs.len() {
                proof {
                    assert(line_start_char(cs@, (k + 1) as nat) is None);
                    lemma_no_line_after(cs@, (k + 1) as nat, line as nat);
                    reveal_strlit("");
                }
                return "";
            }
            s = e + 1;
            k = k + 1;
        }
        let e = next_lf(&cs, s);
        let mut t = e;
        proof {
            assert(cs@.subrange(s as int, t as int) =~= cs@.subrange(s as int, e as int));
        }
        while t > s && cs[t - 1] == '\r'
            invariant
                s <= t <= e <= cs@.len(),
                trim_cr(cs@.subrange(s as int, t as int)) == trim_cr(cs@.subrange(s as int, e as int)),
            decreases t,
        {
            assert(cs@.subrange(s as int, t - 1) =~= cs@.subrange(s as int, t as int).drop_last());
            t = t - 1;
        }
        self.source.as_str().substring_char(s, t)
    }

    /// The token covering byte `offset` and its index: with tokens in
    /// source order, the last token starting at or before `offset`, provided
    /// `offset` is before its end.
    pub fn find_token_at(&self, offset: usize) -> (r: Option<(&OwnedToken, usize)>)
        ensures
            r matches Some((t, i)) ==> i < self.tokens@.len() && *t == self.tokens@[i as int]
                && t.span.start <= offset && offset < t.span.end,
            tokens_sorted(self.tokens@) ==> (r is Some <==> exists|i: int| token_covers(self.tokens@, offset as int, i)),
            tokens_sorted(self.tokens@) ==> (r matches Some((t, i)) ==> token_covers(self.tokens@, offset as int, i as int)),
    {
        let toks = &self.tokens;
        let mut lo: usize = 0;
        let mut hi: usize = toks.len();
        // Binary search for the number of tokens starting at or before `offset`.
        while lo < hi
            invariant
                0 <= lo <= hi <= toks@.len(),
                tokens_sorted(toks@) ==> forall|i: int| 0 <= i < lo ==> toks@[i].span.start <= offset,
                tokens_sorted(toks@) ==> forall|i: int| hi <= i < toks@.len() ==> toks@[i].span.start > offset,
                lo > 0 ==> toks@[lo - 1].span.start <= offset,
                hi < toks@.len() ==> toks@[hi as int].span.start > offset,
            decreases hi - lo,
        {
            let mid = lo + (hi - lo) / 2;
            if (toks[mid].span.start as usize) <= offset {
                lo = mid + 1;
            } else {
                hi = mid;
            }
        }
        if lo == 0 {
            proof {
                if tokens_sorted(toks@) {
                    assert forall|i: int| !token_covers(toks@, offset as int, i) by {
                        if 0 <= i < toks@.len() {
                            assert(toks@[i].span.start > offset);
                        }
                    }
                }
            }
            return None;
        }
        let token = &toks[lo - 1];
        if offset < token.span.end as usize {
            proof {
                if tokens_sorted(toks@) {
                    assert(token_covers(toks@, offset as int, lo - 1));
                }
            }
            Some((token, lo - 1))
        } else {
            proof {
                if tokens_sorted(toks@) {
                    assert forall|i: int| !token_covers(toks@, offset as int, i) by {
                        if 0 <= i < toks@.len() && toks@[i].span.start <= offset && (i + 1 == toks@.len()
                            || toks@[i + 1].span.start > offset) {
                            if i < lo - 1 {
                                assert(toks@[i + 1].span.start <= offset);
                            } else if i > lo - 1 {
                                assert(toks@[i].span.start > offset);
                            }
                        }
                    }
                }
            }
            None
        }
    }
}

} // verus!
