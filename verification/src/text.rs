//! Byte- and character-level text helpers shared by the analyses.

use vstd::prelude::*;
use vstd::string::*;
use vstd::utf8::*;

verus! {

/// Two byte strings are equal.
pub fn bytes_eq(a: &[u8], b: &[u8]) -> (r: bool)
    ensures
        r == (a@ == b@),
{
    if a.len() != b.len() {
        return false;
    }
    let mut i: usize = 0;
    while i < a.len()
        invariant
            a@.len() == b@.len(),
            i <= a@.len(),
            forall|k: int| 0 <= k < i ==> a@[k] == b@[k],
        decreases a@.len() - i,
    {
        if a[i] != b[i] {
            return false;
        }
        i = i + 1;
    }
    assert(a@ =~= b@);
    true
}

/// Two strings hold the same characters.
pub fn str_eq(a: &str, b: &str) -> (r: bool)
    ensures
        r == (a@ == b@),
{
    broadcast use encode_utf8_decode_utf8;

    let r = bytes_eq(a.as_bytes(), b.as_bytes());
    proof {
        if r {
            assert(decode_utf8(a.spec_bytes()) == decode_utf8(b.spec_bytes()));
        }
    }
    r
}

/// The first byte of the encoding of a character is an ASCII byte `c` exactly
/// when the character is `c`.
pub proof fn lemma_encode_scalar_first_ascii(ch: char, c: u8)
    requires
        c < 128,
    ensures
        (encode_scalar(ch as u32)[0] == c) <==> (ch as u32 == c as u32),
        encode_scalar(ch as u32).len() >= 1,
{
    char_is_scalar(ch);
    let v = ch as u32;
    if has_width_1_encoding(v) {
        assert(v <= 0x7f ==> ((v & 0x7f) as u8) as u32 == v) by (bit_vector);
        assert(v <= 0x7f ==> (c as u32 == v <==> (v & 0x7f) as u8 == c)) by (bit_vector)
            requires c < 128;
    } else if has_width_2_encoding(v) {
        assert((0xC0u8 | ((v >> 6) & 0x1F) as u8) >= 0xC0u8) by (bit_vector);
    } else if has_width_3_encoding(v) {
        assert((0xE0u8 | ((v >> 12) & 0x0F) as u8) >= 0xE0u8) by (bit_vector);
    } else {
        assert((0xF0u8 | ((v >> 18) & 0x7) as u8) >= 0xF0u8) by (bit_vector);
    }
}

/// The encoding of a text starts with the byte of an ASCII character `c`
/// exactly when the text starts with `c`.
pub proof fn lemma_first_byte_ascii(s: Seq<char>, c: char)
    requires
        (c as u32) < 128,
    ensures
        (encode_utf8(s).len() > 0 && encode_utf8(s)[0] == (c as u32) as u8) <==> (s.len() > 0 && s[0] == c),
{
    if s.len() > 0 {
        lemma_encode_scalar_first_ascii(s[0], (c as u32) as u8);
        assert(encode_utf8(s)[0] == encode_scalar(s[0] as u32)[0]);
        if s[0] as u32 == c as u32 {
            char_u32_cast(s[0], c as u32);
            char_u32_cast(c, c as u32);
        }
    }
}

/// Whether a character has the Unicode White_Space property, as
/// `char::is_whitespace` tests: the controls U+0009 to U+000D, the space,
/// U+0085, U+00A0, U+1680, U+2000 to U+200A, U+2028, U+2029, U+202F,
/// U+205F and U+3000.
pub open spec fn is_ws(c: char) -> bool {
    ||| '\u{9}' <= c <= '\u{d}'
    ||| c == ' '
    ||| c == '\u{85}'
    ||| c == '\u{a0}'
    ||| c == '\u{1680}'
    ||| '\u{2000}' <= c <= '\u{200a}'
    ||| c == '\u{2028}'
    ||| c == '\u{2029}'
    ||| c == '\u{202f}'
    ||| c == '\u{205f}'
    ||| c == '\u{3000}'
}

/// Whether a character is Unicode white space (see [`is_ws`]).
pub fn char_is_whitespace(c: char) -> (r: bool)
    ensures
        r == is_ws(c),
{
    (c >= '\u{9}' && c <= '\u{d}') || c == ' ' || c == '\u{85}' || c == '\u{a0}' || c == '\u{1680}' || (c
        >= '\u{2000}' && c <= '\u{200a}') || c == '\u{2028}' || c == '\u{2029}' || c == '\u{202f}' || c
        == '\u{205f}' || c == '\u{3000}'
}

/// What `char::is_alphanumeric` returns for a character (Unicode Alphabetic or Numeric).
pub uninterp spec fn is_alnum(c: char) -> bool;

/// Calls `char::is_alphanumeric`; the result is the name [`is_alnum`] of the character.
#[verifier::external_body]
pub(crate) fn char_is_alphanumeric(c: char) -> (r: bool)
    ensures
        r == is_alnum(c),
{
    c.is_alphanumeric()
}

/// Calls `String::push`: appends one character.
#[verifier::external_body]
pub(crate) fn string_push(s: &mut String, c: char)
    ensures
        final(s)@ == old(s)@.push(c),
{
    s.push(c)
}

/// The characters of a text.
pub fn chars_of(s: &str) -> (r: Vec<char>)
    ensures
        r@ == s@,
{
    let mut v: Vec<char> = Vec::new();
    for c in it: s.chars()
        invariant
            it.seq() == s@,
            v@ == it.seq().subrange(0, it.index() as int),
    {
        v.push(c);
        assert(v@ =~= it.seq().subrange(0, it.index() + 1));
    }
    assert(v@ =~= s@);
    v
}

/// A string made of the characters of `cs[lo..hi]`.
pub fn string_of(cs: &Vec<char>, lo: usize, hi: usize) -> (r: String)
    requires
        lo <= hi <= cs@.len(),
    ensures
        r@ == cs@.subrange(lo as int, hi as int),
{
    let mut r = String::new();
    let mut i = lo;
    while i < hi
        invariant
            lo <= i <= hi <= cs@.len(),
            r@ == cs@.subrange(lo as int, i as int),
        decreases hi - i,
    {
        string_push(&mut r, cs[i]);
        i = i + 1;
        assert(r@ =~= cs@.subrange(lo as int, i as int));
    }
    r
}

/// `s` without its trailing whitespace.
pub open spec fn trim_end(s: Seq<char>) -> Seq<char>
    decreases s.len(),
{
    if s.len() > 0 && is_ws(s.last()) {
        trim_end(s.drop_last())
    } else {
        s
    }
}

/// Start of the last word of `s`, a text without trailing whitespace: the
/// index just after its last whitespace character, or 0.
pub open spec fn last_word_start(s: Seq<char>) -> int
    decreases s.len(),
{
    if s.len() == 0 {
        0
    } else if is_ws(s.last()) {
        s.len() as int
    } else {
        last_word_start(s.drop_last())
    }
}

/// The last whitespace-separated word of `s` (empty when `s` is blank).
pub open spec fn last_word(s: Seq<char>) -> Seq<char> {
    let t = trim_end(s);
    t.subrange(last_word_start(t), t.len() as int)
}

/// `s` before its last whitespace-separated word.
pub open spec fn before_last_word(s: Seq<char>) -> Seq<char> {
    let t = trim_end(s);
    t.subrange(0, last_word_start(t))
}

pub proof fn lemma_trim_end(s: Seq<char>)
    ensures
        trim_end(s).len() <= s.len(),
        trim_end(s) == s.subrange(0, trim_end(s).len() as int),
        trim_end(s).len() > 0 ==> !is_ws(trim_end(s).last()),
        forall|i: int| trim_end(s).len() <= i < s.len() ==> is_ws(s[i]),
    decreases s.len(),
{
    if s.len() > 0 && is_ws(s.last()) {
        let p = s.drop_last();
        lemma_trim_end(p);
        assert(trim_end(s.drop_last()) =~= s.subrange(0, trim_end(s).len() as int));
        assert forall|i: int| trim_end(s).len() <= i < s.len() implies is_ws(s[i]) by {
            if i < p.len() {
                assert(p[i] == s[i]);
            }
        }
    } else {
        assert(s.subrange(0, s.len() as int) =~= s);
    }
}

pub proof fn lemma_last_word_start(s: Seq<char>)
    ensures
        0 <= last_word_start(s) <= s.len(),
        forall|i: int| last_word_start(s) <= i < s.len() ==> !is_ws(s[i]),
        last_word_start(s) > 0 ==> is_ws(s[last_word_start(s) - 1]),
    decreases s.len(),
{
    if s.len() > 0 && !is_ws(s.last()) {
        let p = s.drop_last();
        lemma_last_word_start(p);
        assert forall|i: int| last_word_start(s) <= i < s.len() implies !is_ws(s[i]) by {
            if i < p.len() {
                assert(p[i] == s[i]);
            }
        }
    }
}

/// Index just past the end of `cs` without trailing whitespace.
pub fn trim_end_len(cs: &Vec<char>) -> (n: usize)
    ensures
        n <= cs@.len(),
        n == trim_end(cs@).len(),
        cs@.subrange(0, n as int) == trim_end(cs@),
{
    proof {
        lemma_trim_end(cs@);
    }
    let mut n = cs.len();
    assert(cs@.subrange(0, n as int) =~= cs@);
    while n > 0 && char_is_whitespace(cs[n - 1])
        invariant
            n <= cs@.len(),
            trim_end(cs@) == trim_end(cs@.subrange(0, n as int)),
        decreases n,
    {
        assert(cs@.subrange(0, n as int).drop_last() =~= cs@.subrange(0, n - 1));
        n = n - 1;
    }
    proof {
        lemma_trim_end(cs@.subrange(0, n as int));
        assert(cs@.subrange(0, n as int).subrange(0, n as int) =~= cs@.subrange(0, n as int));
    }
    n
}

/// Start of the last word of `cs[..n]`, a text without trailing whitespace.
pub fn last_word_start_of(cs: &Vec<char>, n: usize) -> (k: usize)
    requires
        n <= cs@.len(),
    ensures
        k <= n,
        k == last_word_start(cs@.subrange(0, n as int)),
        forall|i: int| k <= i < n ==> !is_ws(cs@[i]),
{
    proof {
        lemma_last_word_start(cs@.subrange(0, n as int));
        assert(forall|i: int| 0 <= i < n ==> cs@.subrange(0, n as int)[i] == cs@[i]);
    }
    let mut k = n;
    while k > 0 && !char_is_whitespace(cs[k - 1])
        invariant
            k <= n <= cs@.len(),
            last_word_start(cs@.subrange(0, n as int)) == last_word_start(cs@.subrange(0, k as int)),
        decreases k,
    {
        assert(cs@.subrange(0, k as int).drop_last() =~= cs@.subrange(0, k - 1));
        k = k - 1;
    }
    k
}

/// First index at or after `i` at which `b` holds `c`.
pub open spec fn first_byte_from(b: Seq<u8>, c: u8, i: int) -> Option<int>
    decreases b.len() - i,
{
    if i < 0 || i >= b.len() {
        None
    } else if b[i] == c {
        Some(i)
    } else {
        first_byte_from(b, c, i + 1)
    }
}

/// Last index at which `b` holds `c`.
pub open spec fn last_byte(b: Seq<u8>, c: u8) -> Option<int>
    decreases b.len(),
{
    if b.len() == 0 {
        None
    } else if b.last() == c {
        Some(b.len() - 1)
    } else {
        last_byte(b.drop_last(), c)
    }
}

/// `s` holds the byte `c`.
pub open spec fn has_byte(s: Seq<u8>, c: u8) -> bool {
    exists|k: int| 0 <= k < s.len() && s[k] == c
}

/// `s` holds `n` as a contiguous part.
pub open spec fn has_sub(s: Seq<u8>, n: Seq<u8>) -> bool {
    exists|k: int| 0 <= k && k + n.len() <= s.len() && #[trigger] s.subrange(k, k + n.len()) == n
}

/// First index at or after `i` at which `b` holds `c`.
pub fn find_byte_from(b: &[u8], c: u8, i: usize) -> (r: Option<usize>)
    ensures
        match r {
            Some(k) => first_byte_from(b@, c, i as int) == Some(k as int),
            None => first_byte_from(b@, c, i as int) is None,
        },
{
    let mut k = i;
    while k < b.len()
        invariant
            i <= k,
            first_byte_from(b@, c, i as int) == first_byte_from(b@, c, k as int),
        decreases b@.len() - k,
    {
        if b[k] == c {
            return Some(k);
        }
        k = k + 1;
    }
    None
}

/// Last index at which `b` holds `c`.
pub fn rfind_byte(b: &[u8], c: u8) -> (r: Option<usize>)
    ensures
        match r {
            Some(k) => last_byte(b@, c) == Some(k as int),
            None => last_byte(b@, c) is None,
        },
{
    let mut k = b.len();
    assert(b@.subrange(0, k as int) =~= b@);
    while k > 0
        invariant
            k <= b@.len(),
            last_byte(b@, c) == last_byte(b@.subrange(0, k as int), c),
        decreases k,
    {
        assert(b@.subrange(0, k as int).drop_last() =~= b@.subrange(0, k - 1));
        if b[k - 1] == c {
            return Some(k - 1);
        }
        k = k - 1;
    }
    None
}

/// Whether `b[lo..hi]` holds the byte `c`.
pub fn has_byte_in(b: &[u8], lo: usize, hi: usize, c: u8) -> (r: bool)
    requires
        lo <= hi <= b@.len(),
    ensures
        r == has_byte(b@.subrange(lo as int, hi as int), c),
{
    let ghost s = b@.subrange(lo as int, hi as int);
    let mut k = lo;
    while k < hi
        invariant
            lo <= k <= hi <= b@.len(),
            s == b@.subrange(lo as int, hi as int),
            forall|j: int| 0 <= j < k - lo ==> s[j] != c,
        decreases hi - k,
    {
        if b[k] == c {
            assert(s[k - lo] == c);
            return true;
        }
        k = k + 1;
    }
    false
}

/// Whether `b[lo..hi]` holds `n` as a contiguous part.
pub fn has_sub_in(b: &[u8], lo: usize, hi: usize, n: &[u8]) -> (r: bool)
    requires
        lo <= hi <= b@.len(),
    ensures
        r == has_sub(b@.subrange(lo as int, hi as int), n@),
{
    let ghost s = b@.subrange(lo as int, hi as int);
    if n.len() > hi - lo {
        return false;
    }
    let mut k = lo;
    while k <= hi - n.len()
        invariant
            lo <= k,
            n@.len() <= hi - lo,
            hi <= b@.len(),
            s == b@.subrange(lo as int, hi as int),
            forall|j: int| 0 <= j < k - lo && j + n@.len() <= s.len() ==> #[trigger] s.subrange(j, j + n@.len()) != n@,
        decreases hi + 1 - k,
    {
        let mut m: usize = 0;
        let mut same = true;
        while m < n.len()
            invariant
                m <= n@.len(),
                k + n@.len() <= hi <= b@.len(),
                same == (forall|q: int| 0 <= q < m ==> b@[k + q] == n@[q]),
            decreases n@.len() - m,
        {
            if b[k + m] != n[m] {
                same = false;
            }
            m = m + 1;
        }
        let ghost j = k - lo;
        if same {
            assert(s.subrange(j, j + n@.len()) =~= n@);
            return true;
        } else {
            assert(s.subrange(j, j + n@.len()) != n@) by {
                let q = choose|q: int| 0 <= q < n@.len() && b@[k + q] != n@[q];
                assert(s.subrange(j, j + n@.len())[q] == b@[k + q]);
            }
        }
        k = k + 1;
    }
    false
}

/// The ASCII lower-case form of a character: `A`..`Z` become `a`..`z`,
/// every other character is unchanged.
pub open spec fn ascii_lower(c: char) -> char {
    if 'A' <= c && c <= 'Z' {
        ((c as u32) + 32) as char
    } else {
        c
    }
}

/// Two texts are equal when ASCII letters are compared case-insensitively.
pub open spec fn eq_ignore_ascii(a: Seq<char>, b: Seq<char>) -> bool {
    &&& a.len() == b.len()
    &&& forall|i: int| 0 <= i < a.len() ==> ascii_lower(#[trigger] a[i]) == ascii_lower(b[i])
}

/// The ASCII lower-case form of a character.
pub fn to_ascii_lower(c: char) -> (r: char)
    ensures
        r == ascii_lower(c),
{
    if 'A' <= c && c <= 'Z' {
        let b: u8 = c as u8;
        (b + 32) as char
    } else {
        c
    }
}

/// Whether `a[alo..alo + n]` and `b[blo..blo + n]` are equal with ASCII
/// letters compared case-insensitively.
pub fn chars_eq_ignore_ascii(a: &Vec<char>, alo: usize, b: &Vec<char>, blo: usize, n: usize) -> (r: bool)
    requires
        alo + n <= a@.len(),
        blo + n <= b@.len(),
    ensures
        r == eq_ignore_ascii(a@.subrange(alo as int, alo + n), b@.subrange(blo as int, blo + n)),
{
    let ghost sa = a@.subrange(alo as int, alo + n);
    let ghost sb = b@.subrange(blo as int, blo + n);
    let mut i: usize = 0;
    while i < n
        invariant
            alo + n <= a@.len(),
            blo + n <= b@.len(),
            sa == a@.subrange(alo as int, alo + n),
            sb == b@.subrange(blo as int, blo + n),
            i <= n,
            alo + n <= a.len(),
            blo + n <= b.len(),
            forall|k: int| 0 <= k < i ==> ascii_lower(#[trigger] sa[k]) == ascii_lower(sb[k]),
        decreases n - i,
    {
        assert(sa[i as int] == a@[alo + i]);
        assert(sb[i as int] == b@[blo + i]);
        if to_ascii_lower(a[alo + i]) != to_ascii_lower(b[blo + i]) {
            return false;
        }
        i = i + 1;
    }
    true
}

/// Whether two strings are equal with ASCII letters compared
/// case-insensitively.
pub fn eq_ignore_ascii_case(a: &str, b: &str) -> (r: bool)
    ensures
        r == eq_ignore_ascii(a@, b@),
{
    let ca = chars_of(a);
    let cb = chars_of(b);
    if ca.len() != cb.len() {
        return false;
    }
    let r = chars_eq_ignore_ascii(&ca, 0, &cb, 0, ca.len());
    assert(ca@.subrange(0, ca@.len() as int) =~= a@);
    assert(cb@.subrange(0, cb@.len() as int) =~= b@);
    r
}

/// Number of bytes of the UTF-8 encoding of a character.
pub fn utf8_len(c: char) -> (r: usize)
    ensures
        r == encode_scalar(c as u32).len(),
        1 <= r <= 4,
{
    proof {
        char_is_scalar(c);
    }
    let v = c as u32;
    if v <= 0x7F {
        1
    } else if v <= 0x7FF {
        2
    } else if v <= 0xFFFF {
        3
    } else {
        4
    }
}

/// Number of leading characters of `cs`, starting at character `k` whose
/// encoding starts at byte `pos`, whose encoding ends at or before byte `b`.
pub open spec fn chars_within_from(cs: Seq<char>, k: int, pos: int, b: int) -> int
    decreases cs.len() - k,
{
    if k < 0 || k >= cs.len() || pos + encode_scalar(cs[k] as u32).len() > b {
        k
    } else {
        chars_within_from(cs, k + 1, pos + encode_scalar(cs[k] as u32).len(), b)
    }
}

/// The characters of a text that lie before byte offset `b`.
pub open spec fn chars_before_byte(cs: Seq<char>, b: int) -> Seq<char> {
    cs.take(chars_within_from(cs, 0, 0, b))
}

proof fn lemma_chars_within_from(cs: Seq<char>, k: int, pos: int, b: int)
    requires
        0 <= k <= cs.len(),
    ensures
        k <= chars_within_from(cs, k, pos, b) <= cs.len(),
    decreases cs.len() - k,
{
    if k < cs.len() && pos + encode_scalar(cs[k] as u32).len() <= b {
        lemma_chars_within_from(cs, k + 1, pos + encode_scalar(cs[k] as u32).len(), b);
    }
}

/// The characters of `s` that lie before byte offset `b`.
pub fn chars_before(s: &str, b: usize) -> (r: Vec<char>)
    ensures
        r@ == chars_before_byte(s@, b as int),
{
    let cs = chars_of(s);
    let ghost c = cs@;
    let mut k: usize = 0;
    let mut pos: usize = 0;
    proof {
        lemma_chars_within_from(c, 0, 0, b as int);
    }
    while k < cs.len()
        invariant
            c == cs@,
            k <= c.len(),
            pos <= b,
            chars_within_from(c, 0, 0, b as int) == chars_within_from(c, k as int, pos as int, b as int),
        ensures
            k <= c.len(),
            chars_within_from(c, 0, 0, b as int) == k,
        decreases c.len() - k,
    {
        let l = utf8_len(cs[k]);
        if l > b - pos {
            break;
        }
        pos = pos + l;
        k = k + 1;
    }
    let mut r: Vec<char> = Vec::new();
    let mut i: usize = 0;
    while i < k
        invariant
            c == cs@,
            i <= k <= c.len(),
            r@ == c.take(i as int),
        decreases k - i,
    {
        r.push(cs[i]);
        i = i + 1;
        assert(r@ =~= c.take(i as int));
    }
    r
}


/// The last whitespace-separated word of a text is what splitting it on
/// whitespace gives last: a run of non-whitespace characters that ends the
/// text once trailing whitespace is dropped, preceded by whitespace or by
/// nothing; it is empty exactly when the text is blank. The text before it
/// holds the words before it.
pub proof fn law_last_word_is_last_split_word(s: Seq<char>)
    ensures
        before_last_word(s) + last_word(s) == trim_end(s),
        trim_end(s) == s.subrange(0, trim_end(s).len() as int),
        forall|i: int| trim_end(s).len() <= i < s.len() ==> is_ws(#[trigger] s[i]),
        forall|i: int| 0 <= i < last_word(s).len() ==> !is_ws(#[trigger] last_word(s)[i]),
        before_last_word(s).len() > 0 ==> is_ws(before_last_word(s).last()),
        last_word(s).len() == 0 <==> forall|i: int| 0 <= i < s.len() ==> is_ws(#[trigger] s[i]),
{
    lemma_trim_end(s);
    let t = trim_end(s);
    lemma_last_word_start(t);
    let k = last_word_start(t);
    assert(t.subrange(0, k) + t.subrange(k, t.len() as int) =~= t);
    assert forall|i: int| 0 <= i < last_word(s).len() implies !is_ws(#[trigger] last_word(s)[i]) by {
        assert(last_word(s)[i] == t[k + i]);
    }
    if before_last_word(s).len() > 0 {
        assert(before_last_word(s).last() == t[k - 1]);
    }
    if t.len() > 0 {
        assert(!is_ws(t.last()));
        assert(k < t.len());
        assert(!is_ws(s[t.len() - 1]));
    } else {
        assert forall|i: int| 0 <= i < s.len() implies is_ws(#[trigger] s[i]) by {}
    }
}
} // verus!
