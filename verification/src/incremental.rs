//! Range patches for incremental document synchronisation: apply one
//! content-change event to the full text of a document.

use crate::line_index::{line_starts, next_boundary, position_offset, LineIndex};
use crate::position::{Position, Range};
use vstd::prelude::*;
use vstd::string::*;
use vstd::utf8::*;

verus! {

/// One content-change event: replace `range` by `text`, or the whole
/// document when `range` is absent.
#[derive(Debug, Clone, PartialEq, Eq)]
pub struct ContentChange {
    /// Range of the text that is replaced; `None` replaces the whole document.
    pub range: Option<Range>,
    /// Length of the replaced range, as sent by some clients (unused).
    pub range_length: Option<u32>,
    /// New text.
    pub text: String,
}

/// Byte offsets `(start, end)` that a change range selects: both ends
/// converted by [`position_offset`], and a reversed range collapsed to an
/// insertion at its end.
pub open spec fn change_offsets(starts: Seq<u32>, bytes: Seq<u8>, range: Range) -> (int, int) {
    let s = position_offset(starts, bytes, range.start);
    let e = position_offset(starts, bytes, range.end);
    if s > e {
        (e, e)
    } else {
        (s, e)
    }
}

/// The text of `source` after a change: the replacement text alone, or the
/// characters before the start offset, the replacement text, and the
/// characters from the end offset on.
pub open spec fn applied_change(
    starts: Seq<u32>,
    bytes: Seq<u8>,
    range: Option<Range>,
    text: Seq<char>,
) -> Seq<char> {
    match range {
        None => text,
        Some(r) => {
            let (s, e) = change_offsets(starts, bytes, r);
            decode_utf8(bytes.subrange(0, s)) + text + decode_utf8(bytes.subrange(e, bytes.len() as int))
        },
    }
}

/// `next_boundary` lands on a character boundary no further than the end.
pub proof fn lemma_next_boundary(bytes: Seq<u8>, t: int)
    requires
        valid_utf8(bytes),
        0 <= t,
    ensures
        t <= bytes.len() ==> t <= next_boundary(bytes, t),
        next_boundary(bytes, t) <= bytes.len(),
        is_char_boundary(bytes, next_boundary(bytes, t)),
        forall|k: int| t <= k < next_boundary(bytes, t) ==> !is_char_boundary(bytes, k),
    decreases bytes.len() - t,
{
    broadcast use is_char_boundary_start_end_of_seq;

    if t < bytes.len() && !is_char_boundary(bytes, t) {
        lemma_next_boundary(bytes, t + 1);
    }
}

/// Convert a position to a byte offset that is a character boundary of `source`.
fn position_to_byte_offset(source: &str, index: &LineIndex, position: Position) -> (r: usize)
    requires
        index@ == line_starts(source.spec_bytes()),
    ensures
        r == position_offset(index@, source.spec_bytes(), position),
        is_char_boundary(source.spec_bytes(), r as int),
        r <= source.spec_bytes().len(),
{
    broadcast use encode_utf8_valid_utf8, is_char_boundary_start_end_of_seq;

    let ghost b = source.spec_bytes();
    let mut offset = index.position_to_offset(source, position);
    let len = source.as_bytes().len();
    proof {
        if position.line < index@.len() {
            lemma_next_boundary(b, index@[position.line as int] + position.character);
        }
    }
    let ghost r0 = offset;
    if offset > len {
        offset = len;
    }
    while !source.is_char_boundary(offset) && offset > 0
        invariant
            b == source.spec_bytes(),
            len == b.len(),
            offset == r0,
            r0 <= len,
            is_char_boundary(b, r0 as int),
        decreases offset,
    {
        offset = offset - 1;
    }
    offset
}

/// Apply one content-change event to `source` and return the new text.
///
/// With no range the replacement text is the new document. With a range,
/// both ends are converted to byte offsets (a reversed range becomes an
/// insertion at its end) and the bytes between them are replaced.
pub fn apply_content_change(source: &str, index: &LineIndex, change: &ContentChange) -> (r: String)
    requires
        index@ == line_starts(source.spec_bytes()),
    ensures
        r@ == applied_change(index@, source.spec_bytes(), change.range, change.text@),
{
    broadcast use encode_utf8_valid_utf8, encode_utf8_decode_utf8;

    let range = match &change.range {
        None => {
            return change.text.clone();
        },
        Some(range) => *range,
    };
    let ghost b = source.spec_bytes();
    let start_offset = position_to_byte_offset(source, index, range.start);
    let end_offset = position_to_byte_offset(source, index, range.end);
    let (start, end) = if start_offset > end_offset {
        (end_offset, end_offset)
    } else {
        (start_offset, end_offset)
    };
    let (prefix, _) = source.split_at(start);
    let (_, suffix) = source.split_at(end);
    proof {
        assert(decode_utf8(prefix.spec_bytes()) == prefix@);
        assert(decode_utf8(suffix.spec_bytes()) == suffix@);
    }
    let mut result = String::new();
    result.append(prefix);
    result.append(change.text.as_str());
    result.append(suffix);
    result
}


/// Inserting nothing at any position gives the text back unchanged.
pub proof fn law_empty_insertion_keeps_text(cs: Seq<char>, p: Position)
    ensures
        applied_change(line_starts(encode_utf8(cs)), encode_utf8(cs), Some(Range { start: p, end: p }), Seq::empty())
            == cs,
{
    broadcast use encode_utf8_valid_utf8, encode_utf8_decode_utf8, is_char_boundary_start_end_of_seq;

    let b = encode_utf8(cs);
    let starts = line_starts(b);
    let s = position_offset(starts, b, p);
    if p.line < starts.len() {
        lemma_next_boundary(b, starts[p.line as int] + p.character);
    }
    assert(is_char_boundary(b, s));
    decode_utf8_split(b, s);
    assert(decode_utf8(b.subrange(0, s)) + Seq::<char>::empty() + decode_utf8(b.subrange(s, b.len() as int))
        =~= decode_utf8(b));
}

/// A change without a range replaces the whole text by the change's text.
pub proof fn law_full_replacement(starts: Seq<u32>, bytes: Seq<u8>, text: Seq<char>)
    ensures
        applied_change(starts, bytes, None, text) == text,
{
}


/// A change range selects offsets `a <= b` of the text, both on character
/// boundaries, with `b` the offset of the range end (whose start snaps to it
/// when reversed); the new text keeps the characters before `a`, then the
/// replacement, then the characters from `b` on.
pub proof fn law_change_splices_at_boundaries(cs: Seq<char>, r: Range, text: Seq<char>)
    requires
        encode_utf8(cs).len() <= u32::MAX,
    ensures
        ({
            let b = encode_utf8(cs);
            let starts = line_starts(b);
            let (s, e) = change_offsets(starts, b, r);
            &&& 0 <= s <= e <= b.len()
            &&& is_char_boundary(b, s) && is_char_boundary(b, e)
            &&& e == position_offset(starts, b, r.end)
            &&& s == if position_offset(starts, b, r.start) > e { e } else { position_offset(starts, b, r.start) }
            &&& decode_utf8(b.subrange(0, s)) + decode_utf8(b.subrange(s, b.len() as int)) == cs
            &&& applied_change(starts, b, Some(r), text) == decode_utf8(b.subrange(0, s)) + text + decode_utf8(
                b.subrange(e, b.len() as int),
            )
        }),
{
    broadcast use encode_utf8_valid_utf8, encode_utf8_decode_utf8, is_char_boundary_start_end_of_seq;

    let b = encode_utf8(cs);
    crate::line_index::law_position_offset_in_text(cs, r.start);
    crate::line_index::law_position_offset_in_text(cs, r.end);
    let (s, e) = change_offsets(line_starts(b), b, r);
    decode_utf8_split(b, s);
}
} // verus!
