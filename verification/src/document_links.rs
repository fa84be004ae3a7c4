//! Document links for SQLCMD `:r <path>` include directives.
//!
//! A directive is a `:` token at the start of its line (only spaces and tabs
//! before it) followed by an identifier `r` (any case). Its argument is the
//! rest of the line, trimmed of spaces, tabs and carriage returns and
//! unquoted; backslashes become slashes and the path is resolved against the
//! directory of the document. A path that leaves that directory, or that is
//! absolute, gives no link.
//!
//! URLs are handled by their serialization; parsing, joining and reading a
//! URL's path are done by the `url` crate (re-exported by `lsp_types`).

use crate::analysis::DocumentAnalysis;
use crate::config::DocumentLinkConfig;
use crate::line_index::{range_at, LineIndex};
use crate::position::Range;
use crate::text::{chars_of, eq_ignore_ascii, eq_ignore_ascii_case, string_of, string_push};
use crate::token::{OwnedToken, TokenKind};
use vstd::prelude::*;
use vstd::string::*;
use vstd::utf8::*;

verus! {

/// What `Url::parse` gives for a text: the serialization of the parsed URL,
/// or none when the text is no absolute URL.
pub uninterp spec fn parsed_url(s: Seq<char>) -> Option<Seq<char>>;

/// What `Url::join` gives for the URL serialized as `base` and a reference
/// `rel`: the serialization of the joined URL, or none on error.
pub uninterp spec fn joined_url(base: Seq<char>, rel: Seq<char>) -> Option<Seq<char>>;

/// What `Url::path` gives for the URL serialized as `u` (none when `u` does
/// not parse).
pub uninterp spec fn url_path(u: Seq<char>) -> Option<Seq<char>>;

/// Calls `Url::parse`; the result, as a serialization, is [`parsed_url`] of
/// the text.
#[verifier::external_body]
fn parse_url(s: &str) -> (r: Option<String>)
    ensures
        match r {
            Some(u) => parsed_url(s@) == Some(u@),
            None => parsed_url(s@) is None,
        },
{
    match lsp_types::Url::parse(s) {
        Ok(u) => Some(String::from(u)),
        Err(_) => None,
    }
}

/// Calls `Url::join` on the URL serialized as `base` (turned back into a
/// URL by `Url::parse`); the result, as a serialization, is [`joined_url`]
/// of the two texts.
#[verifier::external_body]
fn join_url(base: &str, rel: &str) -> (r: Option<String>)
    ensures
        match r {
            Some(u) => joined_url(base@, rel@) == Some(u@),
            None => joined_url(base@, rel@) is None,
        },
{
    match lsp_types::Url::parse(base) {
        Ok(b) => match b.join(rel) {
            Ok(u) => Some(String::from(u)),
            Err(_) => None,
        },
        Err(_) => None,
    }
}

/// Calls `Url::path` on the URL serialized as `u` (turned back into a URL
/// by `Url::parse`); the result is [`url_path`] of the text.
#[verifier::external_body]
fn path_of_url(u: &str) -> (r: Option<String>)
    ensures
        match r {
            Some(p) => url_path(u@) == Some(p@),
            None => url_path(u@) is None,
        },
{
    match lsp_types::Url::parse(u) {
        Ok(x) => Some(x.path().to_string()),
        Err(_) => None,
    }
}

/// What a link carries for its later resolution: the URI of the owning
/// document and the path as written (unquoted).
pub struct LinkData {
    /// URI of the owning document.
    pub uri: String,
    /// The path as written in the directive, quotes removed.
    pub raw_path: String,
}

impl Clone for LinkData {
    fn clone(&self) -> (r: Self)
        ensures
            r.uri@ == self.uri@,
            r.raw_path@ == self.raw_path@,
    {
        LinkData { uri: self.uri.clone(), raw_path: self.raw_path.clone() }
    }
}

/// A document link.
pub struct DocumentLink {
    /// Range of the directive (`:` through the end of the path argument).
    pub range: Range,
    /// Resolved target URI.
    pub target: Option<String>,
    /// Tooltip.
    pub tooltip: Option<String>,
    /// Payload for resolution.
    pub data: Option<LinkData>,
}

/// Content of a [`DocumentLink`].
pub struct LinkView {
    /// Range.
    pub range: Range,
    /// Target URI.
    pub target: Option<Seq<char>>,
    /// Tooltip.
    pub tooltip: Option<Seq<char>>,
    /// Payload: owning URI and raw path.
    pub data: Option<(Seq<char>, Seq<char>)>,
}

/// A text option as a character-sequence option.
pub open spec fn opt_text(o: Option<String>) -> Option<Seq<char>> {
    match o {
        Some(s) => Some(s@),
        None => None,
    }
}

impl View for DocumentLink {
    type V = LinkView;

    open spec fn view(&self) -> LinkView {
        LinkView {
            range: self.range,
            target: opt_text(self.target),
            tooltip: opt_text(self.tooltip),
            data: match self.data {
                Some(d) => Some((d.uri@, d.raw_path@)),
                None => None,
            },
        }
    }
}

/// OwnedToken `i` is a `:` followed by an identifier `r` (any case).
pub open spec fn directive_head(ts: Seq<OwnedToken>, i: int) -> bool {
    &&& 0 <= i && i + 1 < ts.len()
    &&& ts[i].kind == TokenKind::Colon
    &&& ts[i + 1].kind == TokenKind::Ident
    &&& eq_ignore_ascii(ts[i + 1].text@, "r"@)
}

/// Whether token `i` is a `:` followed by an identifier `r` (any case).
fn is_directive_head(tokens: &Vec<OwnedToken>, i: usize) -> (r: bool)
    requires
        i < tokens.len(),
    ensures
        r == directive_head(tokens@, i as int),
{
    if !matches!(tokens[i].kind, TokenKind::Colon) {
        return false;
    }
    if i + 1 >= tokens.len() {
        return false;
    }
    let r_tok = &tokens[i + 1];
    matches!(r_tok.kind, TokenKind::Ident) && eq_ignore_ascii_case(r_tok.text.as_str(), "r")
}

/// Only spaces and tabs lie between the start of the line (a line feed, a
/// carriage return, or the start of the text) and byte `j`.
pub open spec fn line_start_before(b: Seq<u8>, j: int) -> bool
    decreases j,
{
    if j <= 0 {
        true
    } else if b[j - 1] == 32 || b[j - 1] == 9 {
        line_start_before(b, j - 1)
    } else {
        b[j - 1] == 10 || b[j - 1] == 13
    }
}

/// Whether only spaces and tabs precede byte `colon_offset` on its line.
pub fn is_at_line_start(source: &str, colon_offset: usize) -> (r: bool)
    requires
        colon_offset <= source.spec_bytes().len(),
    ensures
        r == line_start_before(source.spec_bytes(), colon_offset as int),
{
    let bytes = source.as_bytes();
    let mut j = colon_offset;
    while j > 0
        invariant
            j <= colon_offset <= bytes@.len(),
            bytes@ == source.spec_bytes(),
            line_start_before(bytes@, colon_offset as int) == line_start_before(bytes@, j as int),
        decreases j,
    {
        let c = bytes[j - 1];
        if c == 32 || c == 9 {
            j = j - 1;
        } else {
            return c == 10 || c == 13;
        }
    }
    true
}

/// Index of the first line feed or carriage return at or after `j`, or the
/// length of `b`.
pub open spec fn line_end_at(b: Seq<u8>, j: int) -> int
    decreases b.len() - j,
{
    if j >= b.len() {
        b.len() as int
    } else if b[j] == 10 || b[j] == 13 {
        j
    } else {
        line_end_at(b, j + 1)
    }
}

proof fn lemma_line_end_at(b: Seq<u8>, j: int)
    requires
        0 <= j,
    ensures
        line_end_at(b, j) <= b.len(),
        j <= b.len() ==> j <= line_end_at(b, j),
        line_end_at(b, j) < b.len() ==> (b[line_end_at(b, j)] == 10 || b[line_end_at(b, j)] == 13),
    decreases b.len() - j,
{
    if j < b.len() && b[j] != 10 && b[j] != 13 {
        lemma_line_end_at(b, j + 1);
    }
}

/// Offset of the first line terminator at or after `from`, or the length.
pub fn line_end_from(bytes: &[u8], from: usize) -> (r: usize)
    ensures
        r == line_end_at(bytes@, from as int),
{
    let mut j = from;
    while j < bytes.len()
        invariant
            from <= j,
            line_end_at(bytes@, from as int) == line_end_at(bytes@, j as int),
        decreases bytes@.len() - j,
    {
        if bytes[j] == 10 || bytes[j] == 13 {
            return j;
        }
        j = j + 1;
    }
    bytes.len()
}

/// `s` without one layer of matching surrounding quotes (`'...'` or
/// `"..."`); unchanged when not quoted so.
pub open spec fn unquoted(s: Seq<char>) -> Seq<char> {
    if s.len() >= 2 && ((s[0] == '\'' && s.last() == '\'') || (s[0] == '"' && s.last() == '"')) {
        s.subrange(1, s.len() - 1)
    } else {
        s
    }
}

/// Strip one layer of matching surrounding quotes (see [`unquoted`]).
pub fn strip_surrounding_quotes(s: &str) -> (r: &str)
    ensures
        r@ == unquoted(s@),
{
    let n = s.unicode_len();
    if n >= 2 {
        let first = s.get_char(0);
        let last = s.get_char(n - 1);
        if (first == '\'' && last == '\'') || (first == '"' && last == '"') {
            return s.substring_char(1, n - 1);
        }
    }
    proof {
        assert(s@.subrange(0, s@.len() as int) =~= s@);
    }
    s.substring_char(0, n)
}

/// Whether a character is trimmed around a directive's argument.
pub open spec fn is_trim_char(c: char) -> bool {
    c == ' ' || c == '\t' || c == '\r'
}

/// First index at or after `k` whose character is not trimmed.
pub open spec fn trim_run(s: Seq<char>, k: int) -> int
    decreases s.len() - k,
{
    if 0 <= k < s.len() && is_trim_char(s[k]) {
        trim_run(s, k + 1)
    } else {
        k
    }
}

/// Going back from `e` while above `lo`, the index past the last character
/// that is not trimmed.
pub open spec fn trim_back(s: Seq<char>, lo: int, e: int) -> int
    decreases e - lo,
{
    if e > lo && is_trim_char(s[e - 1]) {
        trim_back(s, lo, e - 1)
    } else {
        e
    }
}

proof fn lemma_trim_run(s: Seq<char>, k: int)
    requires
        0 <= k <= s.len(),
    ensures
        k <= trim_run(s, k) <= s.len(),
    decreases s.len() - k,
{
    if k < s.len() && is_trim_char(s[k]) {
        lemma_trim_run(s, k + 1);
    }
}

proof fn lemma_trim_back(s: Seq<char>, lo: int, e: int)
    requires
        lo <= e,
    ensures
        lo <= trim_back(s, lo, e) <= e,
    decreases e - lo,
{
    if e > lo && is_trim_char(s[e - 1]) {
        lemma_trim_back(s, lo, e - 1);
    }
}

pub proof fn lemma_encode_utf8_concat(a: Seq<char>, b: Seq<char>)
    ensures
        encode_utf8(a + b) == encode_utf8(a) + encode_utf8(b),
    decreases a.len(),
{
    if a.len() > 0 {
        assert((a + b).drop_first() =~= a.drop_first() + b);
        lemma_encode_utf8_concat(a.drop_first(), b);
        assert(encode_utf8(a + b) =~= encode_utf8(a) + encode_utf8(b));
    } else {
        assert(a + b =~= b);
        assert(encode_utf8(a) =~= Seq::<u8>::empty());
        assert(encode_utf8(a) + encode_utf8(b) =~= encode_utf8(b));
    }
}

/// The argument of a directive whose `r` ends at byte `after_r`: the rest of
/// its line, trimmed of spaces, tabs and carriage returns, and the byte
/// offset just past it. None when `after_r` is past the line end or no
/// character boundary, or when nothing is left after trimming.
pub open spec fn directive_arg(src: Seq<char>, after_r: int) -> Option<(int, Seq<char>)> {
    let b = encode_utf8(src);
    let le = line_end_at(b, after_r);
    if after_r > le || !is_char_boundary(b, after_r) {
        None
    } else {
        let raw = decode_utf8(b.subrange(after_r, le));
        let a = trim_run(raw, 0);
        let e = trim_back(raw, a, raw.len() as int);
        if e <= a {
            None
        } else {
            Some((after_r + encode_utf8(raw.take(e)).len(), raw.subrange(a, e)))
        }
    }
}

fn extract_path(source: &str, after_r: usize) -> (r: Option<(usize, String)>)
    ensures
        match r {
            Some((pe, t)) => directive_arg(source@, after_r as int) == Some((pe as int, t@)),
            None => directive_arg(source@, after_r as int) is None,
        },
{
    broadcast use encode_utf8_valid_utf8, encode_utf8_decode_utf8, is_char_boundary_iff_not_is_continuation_byte,
        is_char_boundary_start_end_of_seq;

    let bytes = source.as_bytes();
    let le = line_end_from(bytes, after_r);
    proof {
        lemma_line_end_at(bytes@, after_r as int);
    }
    if after_r > le {
        return None;
    }
    if !source.is_char_boundary(after_r) {
        return None;
    }
    let ghost b = source.spec_bytes();
    proof {
        if le < b.len() {
            assert(!is_continuation_byte(b[le as int]));
        }
        assert(is_char_boundary(b, le as int));
    }
    let (head, _) = source.split_at(le);
    proof {
        let hb = head.spec_bytes();
        assert(hb =~= b.subrange(0, le as int));
        if after_r < le {
            assert(is_char_boundary(b, after_r as int));
            assert(!is_continuation_byte(b[after_r as int]));
            assert(hb[after_r as int] == b[after_r as int]);
            assert(!is_continuation_byte(hb[after_r as int]));
        } else {
            is_char_boundary_start_end_of_seq(hb);
        }
        assert(is_char_boundary(hb, after_r as int));
    }
    let (_, raw) = head.split_at(after_r);
    proof {
        assert(raw.spec_bytes() =~= b.subrange(after_r as int, le as int));
        assert(raw@ == decode_utf8(raw.spec_bytes()));
    }
    let cs = chars_of(raw);
    let mut a: usize = 0;
    proof {
        lemma_trim_run(cs@, 0);
    }
    while a < cs.len() && (cs[a] == ' ' || cs[a] == '\t' || cs[a] == '\r')
        invariant
            a <= cs@.len(),
            trim_run(cs@, 0) == trim_run(cs@, a as int),
        decreases cs@.len() - a,
    {
        a = a + 1;
    }
    let mut e = cs.len();
    proof {
        lemma_trim_back(cs@, a as int, e as int);
    }
    while e > a && (cs[e - 1] == ' ' || cs[e - 1] == '\t' || cs[e - 1] == '\r')
        invariant
            a <= e <= cs@.len(),
            trim_back(cs@, a as int, cs@.len() as int) == trim_back(cs@, a as int, e as int),
        decreases e,
    {
        e = e - 1;
    }
    if e <= a {
        return None;
    }
    let pre = string_of(&cs, 0, e);
    let t = string_of(&cs, a, e);
    proof {
        assert(cs@ =~= cs@.take(e as int) + cs@.skip(e as int));
        lemma_encode_utf8_concat(cs@.take(e as int), cs@.skip(e as int));
        assert(pre@ =~= cs@.take(e as int));
    }
    let plen = pre.as_str().len();
    Some((after_r + plen, t))
}

/// Backslashes turned into slashes.
pub open spec fn slashed(s: Seq<char>) -> Seq<char> {
    s.map_values(|c: char| if c == '\\' { '/' } else { c })
}

fn to_slashes(s: &str) -> (r: String)
    ensures
        r@ == slashed(s@),
{
    let cs = chars_of(s);
    let mut r = String::new();
    let mut i: usize = 0;
    while i < cs.len()
        invariant
            i <= cs@.len(),
            cs@ == s@,
            r@ == slashed(cs@.take(i as int)),
        decreases cs@.len() - i,
    {
        let c = cs[i];
        let d = if c == '\\' { '/' } else { c };
        string_push(&mut r, d);
        assert(slashed(cs@.take(i + 1)) =~= slashed(cs@.take(i as int)).push(d));
        i = i + 1;
    }
    assert(cs@.take(cs@.len() as int) =~= cs@);
    r
}

/// The path `rp` is the directory path `dp` or lies under it: equal, or
/// starting with `dp` followed by a slash (`dp` itself when it ends with one).
pub open spec fn path_within_dir(rp: Seq<char>, dp: Seq<char>) -> bool {
    let pre = if dp.len() > 0 && dp.last() == '/' { dp } else { dp + "/"@ };
    rp == dp || (rp.len() >= pre.len() && rp.subrange(0, pre.len() as int) == pre)
}

/// `resolved` is `dir` or lies under it, comparing their paths; false when
/// a path cannot be read.
pub open spec fn within_dir(resolved: Seq<char>, dir: Seq<char>) -> bool {
    match (url_path(resolved), url_path(dir)) {
        (Some(rp), Some(dp)) => path_within_dir(rp, dp),
        _ => false,
    }
}

fn starts_with_text(s: &str, p: &str) -> (r: bool)
    ensures
        r == (s@.len() >= p@.len() && s@.subrange(0, p@.len() as int) == p@),
{
    let sc = chars_of(s);
    let pc = chars_of(p);
    if pc.len() > sc.len() {
        return false;
    }
    let mut i: usize = 0;
    while i < pc.len()
        invariant
            sc@ == s@,
            pc@ == p@,
            pc@.len() <= sc@.len(),
            i <= pc@.len(),
            forall|k: int| 0 <= k < i ==> sc@[k] == pc@[k],
        decreases pc@.len() - i,
    {
        if sc[i] != pc[i] {
            assert(s@.subrange(0, p@.len() as int)[i as int] != p@[i as int]);
            return false;
        }
        i = i + 1;
    }
    assert(s@.subrange(0, p@.len() as int) =~= p@);
    true
}

/// Whether the path `rp` is the directory path `dp` or lies under it (see
/// [`path_within_dir`]).
pub fn path_within(rp: &str, dp: &str) -> (r: bool)
    ensures
        r == path_within_dir(rp@, dp@),
{
    if crate::text::str_eq(rp, dp) {
        return true;
    }
    let dc = chars_of(dp);
    let mut pre = String::from_str(dp);
    if !(dc.len() > 0 && dc[dc.len() - 1] == '/') {
        pre.append("/");
    } else {
        assert(pre@ == dp@);
    }
    proof {
        reveal_strlit("/");
    }
    starts_with_text(rp, pre.as_str())
}

fn is_within_dir(resolved: &str, dir: &str) -> (r: bool)
    ensures
        r == within_dir(resolved@, dir@),
{
    let rp = match path_of_url(resolved) {
        Some(p) => p,
        None => return false,
    };
    let dp = match path_of_url(dir) {
        Some(p) => p,
        None => return false,
    };
    path_within(rp.as_str(), dp.as_str())
}

/// The target of a raw path against the document URI serialized as `base`:
/// with backslashes as slashes, a path that does not start with `/`, joined
/// to the document's directory (`base` joined with `.`), when the result
/// stays within that directory.
pub open spec fn target_of(base: Seq<char>, raw: Seq<char>) -> Option<Seq<char>> {
    let n = slashed(raw);
    if n.len() > 0 && n[0] == '/' {
        None
    } else {
        match joined_url(base, "."@) {
            Some(dir) => match joined_url(dir, n) {
                Some(res) => if within_dir(res, dir) {
                    Some(res)
                } else {
                    None
                },
                None => None,
            },
            None => None,
        }
    }
}

fn resolve_target(base: &str, raw_path: &str) -> (r: Option<String>)
    ensures
        opt_text(r) == target_of(base@, raw_path@),
{
    let normalised = to_slashes(raw_path);
    let nc = chars_of(normalised.as_str());
    if nc.len() > 0 && nc[0] == '/' {
        return None;
    }
    let dir = match join_url(base, ".") {
        Some(d) => d,
        None => return None,
    };
    let resolved = match join_url(dir.as_str(), normalised.as_str()) {
        Some(u) => u,
        None => return None,
    };
    if !is_within_dir(resolved.as_str(), dir.as_str()) {
        return None;
    }
    Some(resolved)
}

/// The target of a raw path against a document URI given as text: the text
/// parsed as a URL, then [`target_of`].
pub open spec fn path_target(uri: Seq<char>, raw: Seq<char>) -> Option<Seq<char>> {
    match parsed_url(uri) {
        Some(b) => target_of(b, raw),
        None => None,
    }
}

fn resolve_path(base_uri: &str, raw_path: &str) -> (r: Option<String>)
    ensures
        opt_text(r) == path_target(base_uri@, raw_path@),
{
    let base = match parse_url(base_uri) {
        Some(b) => b,
        None => return None,
    };
    resolve_target(base.as_str(), raw_path)
}

/// The links of the directives from token `i` on: for each directive head
/// whose two tokens have sound spans, whose `:` lies within the text and
/// starts its line, the
/// directive's argument (when there is one), unquoted, resolved against the
/// document URI `base`; a head consumes its two tokens.
pub open spec fn links_from(src: Seq<char>, li: Seq<u32>, ts: Seq<OwnedToken>, base: Seq<char>, i: int) -> Seq<LinkView>
    decreases ts.len() - i,
{
    if i < 0 || i >= ts.len() {
        Seq::empty()
    } else if !directive_head(ts, i) {
        links_from(src, li, ts, base, i + 1)
    } else {
        let c = ts[i];
        let r = ts[i + 1];
        if c.span.start >= c.span.end || r.span.start >= r.span.end || c.span.start > encode_utf8(src).len()
            || !line_start_before(encode_utf8(src), c.span.start as int) {
            links_from(src, li, ts, base, i + 1)
        } else {
            let rest = links_from(src, li, ts, base, i + 2);
            match directive_arg(src, r.span.end as int) {
                Some((pe, t)) => match target_of(base, unquoted(t)) {
                    Some(tg) => seq![
                        LinkView {
                            range: range_at(li, c.span.start as int, (pe as u32) as int),
                            target: Some(tg),
                            tooltip: None,
                            data: Some((base, unquoted(t))),
                        },
                    ] + rest,
                    None => rest,
                },
                None => rest,
            }
        }
    }
}

/// The links of every `:r` directive of the document, against the document
/// URI serialized as `base_uri`; none when links are disabled.
pub fn document_links(analysis: &DocumentAnalysis, base_uri: &str, config: &DocumentLinkConfig) -> (r: Vec<DocumentLink>)
    requires
        analysis.index_matches(),
    ensures
        r@.map_values(|l: DocumentLink| l@) == (if config.enable {
            links_from(analysis.source@, analysis.line_index@, analysis.tokens@, base_uri@, 0)
        } else {
            Seq::empty()
        }),
{
    let mut links: Vec<DocumentLink> = Vec::new();
    if !config.enable {
        assert(links@.map_values(|l: DocumentLink| l@) =~= Seq::<LinkView>::empty());
        return links;
    }
    let source = analysis.source.as_str();
    let tokens = &analysis.tokens;
    let ghost src = analysis.source@;
    let ghost li = analysis.line_index@;
    let ghost ts = analysis.tokens@;
    let mut i: usize = 0;
    assert(links@.map_values(|l: DocumentLink| l@) =~= Seq::<LinkView>::empty());
    while i < tokens.len()
        invariant
            src == analysis.source@,
            source@ == src,
            li == analysis.line_index@,
            ts == tokens@,
            tokens == &analysis.tokens,
            links_from(src, li, ts, base_uri@, 0) == links@.map_values(|l: DocumentLink| l@) + links_from(
                src,
                li,
                ts,
                base_uri@,
                i as int,
            ),
        decreases ts.len() - i,
    {
        if !is_directive_head(tokens, i) {
            i = i + 1;
            continue;
        }
        let colon_tok = &tokens[i];
        let r_tok = &tokens[i + 1];
        if colon_tok.span.start >= colon_tok.span.end || r_tok.span.start >= r_tok.span.end {
            i = i + 1;
            continue;
        }
        if colon_tok.span.start as usize > source.as_bytes().len() {
            i = i + 1;
            continue;
        }
        if !is_at_line_start(source, colon_tok.span.start as usize) {
            i = i + 1;
            continue;
        }
        let ghost rest = links_from(src, li, ts, base_uri@, i + 2);
        match extract_path(source, r_tok.span.end as usize) {
            Some((pe, t)) => {
                let path = strip_surrounding_quotes(t.as_str());
                match resolve_target(base_uri, path) {
                    Some(target) => {
                        let range = analysis.line_index.offset_to_range(
                            colon_tok.span.start,
                            #[verifier::truncate] (pe as u32),
                        );
                        let link = DocumentLink {
                            range,
                            target: Some(target),
                            tooltip: None,
                            data: Some(LinkData { uri: base_uri.to_string(), raw_path: path.to_string() }),
                        };
                        let ghost before = links@.map_values(|l: DocumentLink| l@);
                        links.push(link);
                        proof {
                            assert(links@.map_values(|l: DocumentLink| l@) =~= before.push(link@));
                            assert(links_from(src, li, ts, base_uri@, i as int) == seq![link@] + rest);
                            assert(before + (seq![link@] + rest) =~= before.push(link@) + rest);
                        }
                    },
                    None => {},
                }
            },
            None => {},
        }
        i = i + 2;
    }
    proof {
        assert(links_from(src, li, ts, base_uri@, i as int) =~= Seq::<LinkView>::empty());
        assert(links@.map_values(|l: DocumentLink| l@) + Seq::<LinkView>::empty() =~= links@.map_values(
            |l: DocumentLink| l@,
        ));
    }
    links
}

/// The link resolved again from its payload: same range, tooltip and
/// payload, with the target recomputed from the payload's URI and path; none
/// without a payload or when the path does not resolve.
pub open spec fn resolved_link(l: LinkView) -> Option<LinkView> {
    match l.data {
        Some((uri, raw)) => match path_target(uri, raw) {
            Some(t) => Some(LinkView { range: l.range, target: Some(t), tooltip: l.tooltip, data: l.data }),
            None => None,
        },
        None => None,
    }
}

fn clone_opt_text(o: &Option<String>) -> (r: Option<String>)
    ensures
        opt_text(r) == opt_text(*o),
{
    match o {
        Some(s) => Some(s.clone()),
        None => None,
    }
}

/// Resolve a document link from its payload (see [`resolved_link`]).
pub fn resolve_document_link(link: &DocumentLink, analysis: &DocumentAnalysis) -> (r: Option<DocumentLink>)
    ensures
        match resolved_link(link@) {
            Some(v) => r matches Some(l) && l@ == v,
            None => r is None,
        },
{
    let data = match &link.data {
        Some(d) => d,
        None => return None,
    };
    let target = match resolve_path(data.uri.as_str(), data.raw_path.as_str()) {
        Some(t) => t,
        None => return None,
    };
    Some(DocumentLink {
        range: link.range,
        target: Some(target),
        tooltip: clone_opt_text(&link.tooltip),
        data: Some(data.clone()),
    })
}

/// The URI of the document owning a link, from its payload.
pub fn link_uri(link: &DocumentLink) -> (r: Option<String>)
    ensures
        opt_text(r) == match link@.data {
            Some((uri, _)) => Some(uri),
            None => None::<Seq<char>>,
        },
{
    match &link.data {
        Some(d) => Some(d.uri.clone()),
        None => None,
    }
}


/// Every link found in a document resolves again to itself, when the
/// document URI reads back as itself (`Url::parse` of its serialization
/// gives the same URL).
pub proof fn law_resolve_keeps_links(src: Seq<char>, li: Seq<u32>, ts: Seq<OwnedToken>, base: Seq<char>, i: int)
    requires
        parsed_url(base) == Some(base),
    ensures
        forall|k: int|
            0 <= k < links_from(src, li, ts, base, i).len() ==> resolved_link(
                #[trigger] links_from(src, li, ts, base, i)[k],
            ) == Some(links_from(src, li, ts, base, i)[k]),
    decreases ts.len() + 1 - i,
{
    if 0 <= i < ts.len() {
        law_resolve_keeps_links(src, li, ts, base, i + 1);
        law_resolve_keeps_links(src, li, ts, base, i + 2);
        let all = links_from(src, li, ts, base, i);
        let rest = links_from(src, li, ts, base, i + 2);
        assert forall|k: int| 0 <= k < all.len() implies resolved_link(#[trigger] all[k]) == Some(all[k]) by {
            if directive_head(ts, i) {
                let c = ts[i];
                let r = ts[i + 1];
                if !(c.span.start >= c.span.end || r.span.start >= r.span.end || c.span.start > encode_utf8(src).len()
                    || !line_start_before(encode_utf8(src), c.span.start as int)) {
                    match directive_arg(src, r.span.end as int) {
                        Some((pe, t)) => match target_of(base, unquoted(t)) {
                            Some(tg) => {
                                if k > 0 {
                                    assert(all[k] == rest[k - 1]);
                                }
                            },
                            None => {},
                        },
                        None => {},
                    }
                }
            }
        }
    }
}

} // verus!
