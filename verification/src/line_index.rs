//! Line offset index: byte offset <-> (line, character) conversion by
//! binary search over the byte offsets at which lines start.

use crate::position::{Position, Range};
use vstd::prelude::*;
use vstd::utf8::*;
use vstd::string::*;

verus! {

broadcast use vstd::seq_lib::group_seq_properties;

/// Byte offsets at which the lines of `bytes` start: `0`, then `i + 1`
/// for every line feed at byte `i`, in increasing order.
pub open spec fn line_starts(bytes: Seq<u8>) -> Seq<u32>
    decreases bytes.len(),
{
    if bytes.len() == 0 {
        seq![0u32]
    } else {
        let prev = line_starts(bytes.drop_last());
        if bytes.last() == 10u8 {
            prev.push(bytes.len() as u32)
        } else {
            prev
        }
    }
}

/// A sequence of line starts: begins at zero and strictly increases.
pub open spec fn starts_wf(s: Seq<u32>) -> bool {
    &&& s.len() > 0
    &&& s[0] == 0
    &&& forall|i: int, j: int| 0 <= i < j < s.len() ==> s[i] < s[j]
}

/// The line of `offset`: the last line whose start is at or before it.
pub open spec fn is_line_of(s: Seq<u32>, offset: int, line: int) -> bool {
    &&& 0 <= line < s.len()
    &&& s[line] <= offset
    &&& line + 1 < s.len() ==> offset < s[line + 1]
}

/// The position of a byte offset: its line, and its byte distance from the
/// start of that line.
pub open spec fn position_at(s: Seq<u32>, offset: int) -> Position {
    let line = choose|l: int| is_line_of(s, offset, l);
    Position { line: line as u32, character: (offset - s[line]) as u32 }
}

/// The range between the positions of two byte offsets.
pub open spec fn range_at(s: Seq<u32>, start: int, end: int) -> Range {
    Range { start: position_at(s, start), end: position_at(s, end) }
}

/// An offset lies on one line only.
pub proof fn lemma_line_unique(s: Seq<u32>, offset: int, a: int, b: int)
    requires
        starts_wf(s),
        is_line_of(s, offset, a),
        is_line_of(s, offset, b),
    ensures
        a == b,
{
    if a < b {
        assert(s[a + 1] <= s[b]);
    } else if b < a {
        assert(s[b + 1] <= s[a]);
    }
}

/// The first UTF-8 character boundary of `bytes` at or after `t`; the text
/// length when `t` is at or past the end.
pub open spec fn next_boundary(bytes: Seq<u8>, t: int) -> int
    decreases bytes.len() - t,
{
    if t >= bytes.len() {
        bytes.len() as int
    } else if is_char_boundary(bytes, t) {
        t
    } else {
        next_boundary(bytes, t + 1)
    }
}

/// Byte offset of a position: the text length for a line past the end,
/// otherwise the first character boundary at or after `line start +
/// character`, capped at the text length.
pub open spec fn position_offset(starts: Seq<u32>, bytes: Seq<u8>, p: Position) -> int {
    if p.line >= starts.len() {
        bytes.len() as int
    } else {
        next_boundary(bytes, starts[p.line as int] + p.character)
    }
}

/// Line starts are well formed, bounded by the text length, and every line
/// start after the first follows a line feed.
pub proof fn lemma_line_starts(bytes: Seq<u8>)
    requires
        bytes.len() <= u32::MAX,
    ensures
        starts_wf(line_starts(bytes)),
        forall|i: int| 0 <= i < line_starts(bytes).len() ==> line_starts(bytes)[i] <= bytes.len(),
        forall|i: int| 0 < i < line_starts(bytes).len() ==> bytes[line_starts(bytes)[i] - 1] == 10u8,
        forall|k: int| 0 <= k < bytes.len() && bytes[k] == 10u8 ==> line_starts(bytes).contains((k + 1) as u32),
    decreases bytes.len(),
{
    if bytes.len() > 0 {
        let p = bytes.drop_last();
        lemma_line_starts(p);
        assert forall|k: int| 0 <= k < bytes.len() && bytes[k] == 10u8 implies line_starts(bytes).contains((k + 1) as u32) by {
            if k < p.len() {
                assert(p[k] == bytes[k]);
                let w = choose|w: int| 0 <= w < line_starts(p).len() && line_starts(p)[w] == (k + 1) as u32;
                if bytes.last() == 10u8 {
                    assert(line_starts(bytes)[w] == (k + 1) as u32);
                }
            } else {
                let s = line_starts(bytes);
                assert(s[s.len() - 1] == (k + 1) as u32);
            }
        }
    }
}

/// In a well-formed sequence of starts, the entry at index `i` is at least `i`.
pub proof fn lemma_starts_at_least_index(s: Seq<u32>, i: int)
    requires
        starts_wf(s),
        0 <= i < s.len(),
    ensures
        s[i] >= i,
    decreases i,
{
    if i > 0 {
        lemma_starts_at_least_index(s, i - 1);
    }
}

/// Pre-computed byte offsets of line starts.
pub struct LineIndex {
    line_offsets: Vec<u32>,
}

impl Clone for LineIndex {
    fn clone(&self) -> (c: Self)
        ensures
            c@ == self@,
    {
        proof {
            use_type_invariant(self);
        }
        let c = LineIndex { line_offsets: self.line_offsets.clone() };
        assert(c.line_offsets@ =~= self.line_offsets@);
        c
    }
}

impl View for LineIndex {
    type V = Seq<u32>;

    closed spec fn view(&self) -> Seq<u32> {
        self.line_offsets@
    }
}

impl LineIndex {
    #[verifier::type_invariant]
    spec fn inv(self) -> bool {
        starts_wf(self.line_offsets@)
    }

    /// Build the line index from source text.
    ///
    /// Offsets are stored as `u32`, so the text must fit in that range.
    pub fn new(source: &str) -> (idx: LineIndex)
        requires
            source.spec_bytes().len() <= u32::MAX,
        ensures
            idx@ == line_starts(source.spec_bytes()),
    {
        let bytes = source.as_bytes();
        let ghost b = bytes@;
        let mut offsets: Vec<u32> = Vec::new();
        offsets.push(0);
        let n = bytes.len();
        let mut i: usize = 0;
        assert(b.take(0) =~= Seq::<u8>::empty());
        while i < n
            invariant
                n == b.len(),
                b == source.spec_bytes(),
                b.len() <= u32::MAX,
                bytes@ == b,
                0 <= i <= n,
                offsets@ == line_starts(b.take(i as int)),
            decreases n - i,
        {
            assert(b.take(i + 1).drop_last() =~= b.take(i as int));
            if bytes[i] == 10u8 {
                offsets.push((i + 1) as u32);
            }
            i = i + 1;
        }
        assert(b.take(n as int) =~= b);
        proof {
            lemma_line_starts(b);
        }
        LineIndex { line_offsets: offsets }
    }

    /// Line number of a byte offset: the last line starting at or before it.
    pub fn line_number(&self, offset: u32) -> (line: u32)
        ensures
            is_line_of(self@, offset as int, line as int),
    {
        proof {
            use_type_invariant(self);
        }
        let s = &self.line_offsets;
        // Find the number of starts that are <= offset.
        let mut lo: usize = 0;
        let mut hi: usize = s.len();
        while lo < hi
            invariant
                0 <= lo <= hi <= s@.len(),
                starts_wf(s@),
                forall|i: int| 0 <= i < lo ==> s@[i] <= offset,
                forall|i: int| hi <= i < s@.len() ==> s@[i] > offset,
            decreases hi - lo,
        {
            let mid = lo + (hi - lo) / 2;
            if s[mid] <= offset {
                lo = mid + 1;
            } else {
                hi = mid;
            }
        }
        proof {
            assert(s@[0] <= offset);
            lemma_starts_at_least_index(s@, lo - 1);
        }
        (lo - 1) as u32
    }

    /// Convert a byte offset to a zero-based (line, character) pair.
    ///
    /// The character is the byte distance from the start of that line.
    pub fn offset_to_position(&self, offset: u32) -> (r: (u32, u32))
        ensures
            is_line_of(self@, offset as int, r.0 as int),
            r.1 == offset - self@[r.0 as int],
            (Position { line: r.0, character: r.1 }) == position_at(self@, offset as int),
    {
        proof {
            use_type_invariant(self);
        }
        let line = self.line_number(offset);
        proof {
            let l = choose|l: int| is_line_of(self@, offset as int, l);
            lemma_line_unique(self@, offset as int, l, line as int);
        }
        let line_start = self.line_offsets[line as usize];
        let character = offset - line_start;
        (line, character)
    }

    /// The range between the positions of two byte offsets.
    pub fn offset_to_range(&self, start: u32, end: u32) -> (r: Range)
        ensures
            r == range_at(self@, start as int, end as int),
    {
        let (sl, sc) = self.offset_to_position(start);
        let (el, ec) = self.offset_to_position(end);
        Range { start: Position { line: sl, character: sc }, end: Position { line: el, character: ec } }
    }

    /// Convert a position to a byte offset.
    ///
    /// A line past the last one gives the text length. Otherwise the result is
    /// the first character boundary at or after `line start + character`
    /// (capped at the text length), so a position inside a multi-byte
    /// character moves forward to the next boundary.
    pub fn position_to_offset(&self, source: &str, position: Position) -> (r: usize)
        requires
            self@ == line_starts(source.spec_bytes()),
        ensures
            r == position_offset(self@, source.spec_bytes(), position),
    {
        broadcast use encode_utf8_valid_utf8, is_char_boundary_start_end_of_seq;

        let line = position.line as usize;
        let len = source.as_bytes().len();
        if line >= self.line_offsets.len() {
            return len;
        }
        let line_start = self.line_offsets[line] as u64;
        let target = line_start + position.character as u64;
        let mut k: usize = if target <= len as u64 {
            target as usize
        } else {
            len
        };
        let ghost b = source.spec_bytes();
        let ghost t = line_start + position.character;
        assert(is_char_boundary(b, b.len() as int));
        assert(next_boundary(b, k as int) == next_boundary(b, t));
        while !source.is_char_boundary(k)
            invariant
                b == source.spec_bytes(),
                len == b.len(),
                k <= len,
                is_char_boundary(b, len as int),
                next_boundary(b, k as int) == next_boundary(b, t),
            decreases len - k,
        {
            k = k + 1;
        }
        k
    }

    /// Number of lines.
    pub fn line_count(&self) -> (n: usize)
        ensures
            n == self@.len(),
    {
        self.line_offsets.len()
    }

    /// Byte offset of the start of a line, or 0 for a line past the end.
    pub fn line_offset(&self, line: usize) -> (r: usize)
        ensures
            line < self@.len() ==> r == self@[line as int],
            line >= self@.len() ==> r == 0,
    {
        if line < self.line_offsets.len() {
            self.line_offsets[line] as usize
        } else {
            0
        }
    }
}


proof fn lemma_line_exists(s: Seq<u32>, o: int, k: int)
    requires
        starts_wf(s),
        0 <= k < s.len(),
        s[k] <= o,
    ensures
        exists|l: int| is_line_of(s, o, l),
    decreases s.len() - k,
{
    if k + 1 < s.len() && s[k + 1] <= o {
        lemma_line_exists(s, o, k + 1);
    } else {
        assert(is_line_of(s, o, k));
    }
}

/// The start of every line is at that line's first character.
pub proof fn law_line_start_position(bytes: Seq<u8>, l: int)
    requires
        bytes.len() <= u32::MAX,
        0 <= l < line_starts(bytes).len(),
    ensures
        position_at(line_starts(bytes), line_starts(bytes)[l] as int) == (Position { line: l as u32, character: 0 }),
{
    let s = line_starts(bytes);
    lemma_line_starts(bytes);
    assert(is_line_of(s, s[l] as int, l));
    let c = choose|x: int| is_line_of(s, s[l] as int, x);
    lemma_line_unique(s, s[l] as int, c, l);
}

/// Converting a byte offset on a character boundary to a position and back
/// gives the offset again.
pub proof fn law_offset_position_roundtrip(cs: Seq<char>, o: int)
    requires
        encode_utf8(cs).len() <= u32::MAX,
        0 <= o <= encode_utf8(cs).len(),
        is_char_boundary(encode_utf8(cs), o),
    ensures
        position_offset(line_starts(encode_utf8(cs)), encode_utf8(cs), position_at(line_starts(encode_utf8(cs)), o)) == o,
{
    let b = encode_utf8(cs);
    let s = line_starts(b);
    lemma_line_starts(b);
    lemma_line_exists(s, o, 0);
    let l = choose|x: int| is_line_of(s, o, x);
    lemma_starts_at_least_index(s, l);
    let p = position_at(s, o);
    assert(p.line as int == l);
    assert(p.character as int == o - s[l]);
    assert(next_boundary(b, s[p.line as int] + p.character) == o);
}


/// Number of line feeds in `bytes`.
pub open spec fn line_feeds(bytes: Seq<u8>) -> nat
    decreases bytes.len(),
{
    if bytes.len() == 0 {
        0
    } else {
        line_feeds(bytes.drop_last()) + if bytes.last() == 10u8 { 1nat } else { 0nat }
    }
}

/// There is one line start more than there are line feeds.
proof fn lemma_starts_count(bytes: Seq<u8>)
    ensures
        line_starts(bytes).len() == line_feeds(bytes) + 1,
    decreases bytes.len(),
{
    if bytes.len() > 0 {
        lemma_starts_count(bytes.drop_last());
    }
}

proof fn lemma_line_is_feed_count(bytes: Seq<u8>, o: int, l: int)
    requires
        bytes.len() <= u32::MAX,
        0 <= o,
        is_line_of(line_starts(bytes), o, l),
    ensures
        l == line_feeds(bytes.take(if o < bytes.len() { o } else { bytes.len() as int })),
    decreases bytes.len(),
{
    let s = line_starts(bytes);
    if bytes.len() == 0 {
        assert(bytes.take(0) =~= Seq::<u8>::empty());
    } else {
        let p = bytes.drop_last();
        let sp = line_starts(p);
        lemma_line_starts(p);
        lemma_starts_count(p);
        if o < bytes.len() {
            assert(bytes.take(o) =~= p.take(o));
            if bytes.last() == 10u8 {
                assert(s == sp.push(bytes.len() as u32));
                assert(l < sp.len());
                assert(is_line_of(sp, o, l));
            }
            lemma_line_is_feed_count(p, o, l);
        } else {
            assert(bytes.take(bytes.len() as int) =~= bytes);
            assert(p.take(p.len() as int) =~= p);
            if bytes.last() == 10u8 {
                assert(s == sp.push(bytes.len() as u32));
                if l + 1 < s.len() {
                    assert(s[l + 1] <= s[s.len() - 1]);
                }
                assert(l == sp.len());
            } else {
                assert(s == sp);
                lemma_line_is_feed_count(p, o, l);
            }
        }
    }
}

/// The position of any byte offset (past the end too) has as line the
/// number of line feeds before the offset (before the end of the text when
/// the offset lies past it), one less than the number of lines at most, and
/// as character the byte distance from that line's start.
pub proof fn law_position_counts_line_feeds(bytes: Seq<u8>, offset: u32)
    requires
        bytes.len() <= u32::MAX,
    ensures
        ({
            let s = line_starts(bytes);
            let p = position_at(s, offset as int);
            let k = if (offset as int) < bytes.len() { offset as int } else { bytes.len() as int };
            &&& p.line == line_feeds(bytes.take(k))
            &&& p.line < s.len()
            &&& p.character == offset - s[p.line as int]
        }),
{
    let s = line_starts(bytes);
    lemma_line_starts(bytes);
    lemma_line_exists(s, offset as int, 0);
    let l = choose|x: int| is_line_of(s, offset as int, x);
    lemma_line_is_feed_count(bytes, offset as int, l);
    lemma_starts_at_least_index(s, l);
}

/// The offset of any position lies within the text on a character boundary;
/// a position on a line past the last gives the text length.
pub proof fn law_position_offset_in_text(cs: Seq<char>, p: Position)
    requires
        encode_utf8(cs).len() <= u32::MAX,
    ensures
        ({
            let b = encode_utf8(cs);
            let o = position_offset(line_starts(b), b, p);
            &&& 0 <= o <= b.len()
            &&& is_char_boundary(b, o)
            &&& p.line >= line_starts(b).len() ==> o == b.len()
        }),
{
    broadcast use encode_utf8_valid_utf8, is_char_boundary_start_end_of_seq;

    let b = encode_utf8(cs);
    let s = line_starts(b);
    if p.line < s.len() {
        crate::incremental::lemma_next_boundary(b, s[p.line as int] + p.character);
    } else {
        assert(is_char_boundary(b, b.len() as int));
    }
}

/// The line starts of a text: one more than its line feeds; the first is
/// zero; the `i`-th after it (counting from one) follows the `i`-th line
/// feed, the byte before it being a line feed preceded by `i - 1` others;
/// they strictly increase and none is past the end of the text.
pub proof fn law_line_starts_follow_line_feeds(bytes: Seq<u8>)
    requires
        bytes.len() <= u32::MAX,
    ensures
        line_starts(bytes).len() == line_feeds(bytes) + 1,
        line_starts(bytes)[0] == 0,
        forall|i: int| 0 < i < line_starts(bytes).len() ==> bytes[#[trigger] line_starts(bytes)[i] - 1] == 10u8
            && line_feeds(bytes.take(line_starts(bytes)[i] - 1)) == i - 1,
        forall|i: int, j: int| 0 <= i < j < line_starts(bytes).len() ==> line_starts(bytes)[i] < line_starts(bytes)[j],
        forall|i: int| 0 <= i < line_starts(bytes).len() ==> #[trigger] line_starts(bytes)[i] <= bytes.len(),
{
    let s = line_starts(bytes);
    lemma_line_starts(bytes);
    lemma_starts_count(bytes);
    assert forall|i: int| 0 < i < s.len() implies bytes[#[trigger] s[i] - 1] == 10u8 && line_feeds(bytes.take(s[i] - 1))
        == i - 1 by {
        law_line_start_position(bytes, i);
        law_position_counts_line_feeds(bytes, s[i]);
        let t = bytes.take(s[i] as int);
        assert(t.drop_last() =~= bytes.take(s[i] - 1));
        assert(t.last() == bytes[s[i] - 1]);
    }
}
} // verus!
