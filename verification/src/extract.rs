//! Cutting the preformatted block out of an item's description.
//!
//! Offsets are byte offsets into the description's UTF-8 encoding, as the
//! offsets of `str` are.

use crate::encoding::{
    byte_offset, lemma_absent_in_bytes, lemma_byte_offset_monotone, lemma_encode_concat,
    lemma_first_occurrence_in_bytes,
};
use crate::search::{
    find, first_occurrence, first_occurs_at, lemma_first_occurrence_is,
    lemma_first_occurrence_none, occurs, occurs_at,
};
use vstd::prelude::*;
use vstd::utf8::{
    decode_utf8, encode_utf8, encode_utf8_decode_utf8, encode_utf8_valid_utf8, is_ascii_chars,
    is_ascii_chars_encode_utf8, is_char_boundary, is_char_boundary_iff_not_is_continuation_byte,
};

verus! {

/// What opens the preformatted block of a description.
pub const OPEN_MARKER: &'static str = "<pre>";

/// What closes the preformatted block of a description.
pub const CLOSE_MARKER: &'static str = "</pre>";

/// The content of a warning whose description holds no block that can be cut out.
pub const PLACEHOLDER: &'static str = "(failed to parse description)";

/// The bytes of the opening marker.
pub open spec fn open_marker() -> Seq<u8> {
    encode_utf8(OPEN_MARKER@)
}

/// The bytes of the closing marker.
pub open spec fn close_marker() -> Seq<u8> {
    encode_utf8(CLOSE_MARKER@)
}

/// The offset that stands for "no closing marker": the placeholder's length
/// in bytes, not the description's. A closing marker found at this very
/// offset is therefore taken for a missing one.
pub open spec fn missing_finish() -> int {
    encode_utf8(PLACEHOLDER@).len() as int
}

/// The offset taken for the start of the block: that of the first opening
/// marker, or 0 where there is none. An opening marker at offset 0 is
/// therefore taken for a missing one.
pub open spec fn block_start(bytes: Seq<u8>) -> int {
    match first_occurrence(bytes, open_marker()) {
        Some(at) => at,
        None => 0,
    }
}

/// The offset taken for the end of the block: that of the first closing
/// marker, or `missing_finish()` where there is none.
pub open spec fn block_finish(bytes: Seq<u8>) -> int {
    match first_occurrence(bytes, close_marker()) {
        Some(at) => at,
        None => missing_finish(),
    }
}

/// The half-open byte range of the block, where there is one to cut out:
/// both offsets differ from their defaults and the first closing marker does
/// not stand before the first opening one.
pub open spec fn block_bounds(bytes: Seq<u8>) -> Option<(int, int)> {
    let start = block_start(bytes);
    let finish = block_finish(bytes);
    if start != 0 && finish != missing_finish() && start <= finish {
        Some((start, finish))
    } else {
        None
    }
}

/// The content extracted from a description: the bytes from the opening
/// marker (included) to the closing marker (excluded), or the placeholder.
pub open spec fn content_of(description: Seq<char>) -> Seq<char> {
    let bytes = encode_utf8(description);
    match block_bounds(bytes) {
        Some((start, finish)) => decode_utf8(bytes.subrange(start, finish)),
        None => PLACEHOLDER@,
    }
}

/// The opening marker, byte by byte.
pub proof fn lemma_open_marker_bytes()
    ensures
        open_marker() =~= seq![0x3cu8, 0x70u8, 0x72u8, 0x65u8, 0x3eu8],
{
    reveal_strlit("<pre>");
    is_ascii_chars_encode_utf8(OPEN_MARKER@);
}

/// The closing marker, byte by byte.
pub proof fn lemma_close_marker_bytes()
    ensures
        close_marker() =~= seq![0x3cu8, 0x2fu8, 0x70u8, 0x72u8, 0x65u8, 0x3eu8],
{
    reveal_strlit("</pre>");
    is_ascii_chars_encode_utf8(CLOSE_MARKER@);
}

/// The placeholder has 29 bytes, one for each of its characters.
pub proof fn lemma_missing_finish()
    ensures
        missing_finish() == 29,
        PLACEHOLDER@.len() == 29,
{
    reveal_strlit("(failed to parse description)");
    is_ascii_chars_encode_utf8(PLACEHOLDER@);
}

/// A byte of a marker's first position opens a character: in a valid
/// encoding, an offset at which a marker stands is a character boundary.
pub proof fn lemma_marker_at_boundary(chars: Seq<char>, marker: Seq<u8>, at: int)
    requires
        occurs_at(encode_utf8(chars), marker, at),
        marker.len() > 0,
        marker[0] == 0x3cu8,
    ensures
        is_char_boundary(encode_utf8(chars), at),
{
    let bytes = encode_utf8(chars);
    encode_utf8_valid_utf8(chars);
    assert(bytes.subrange(at, at + marker.len())[0] == bytes[at]);
    is_char_boundary_iff_not_is_continuation_byte(bytes, at);
}

/// The content of a warning, from the description of its item.
pub fn extract_content(description: &str) -> (content: String)
    ensures
        content@ == content_of(description@),
{
    proof {
        lemma_missing_finish();
    }
    let bytes = description.as_bytes();
    let start: usize = match find(bytes, OPEN_MARKER.as_bytes()) {
        Some(at) => at,
        None => 0,
    };
    let finish: usize = match find(bytes, CLOSE_MARKER.as_bytes()) {
        Some(at) => at,
        None => PLACEHOLDER.len(),
    };
    if start != 0 && finish != PLACEHOLDER.len() && start <= finish {
        proof {
            lemma_open_marker_bytes();
            lemma_close_marker_bytes();
            lemma_marker_at_boundary(description@, open_marker(), start as int);
        }
        let (_, tail) = description.split_at(start);
        proof {
            assert(encode_utf8(tail@) =~= bytes@.subrange(start as int, bytes@.len() as int));
            assert(occurs_at(encode_utf8(tail@), close_marker(), finish - start)) by {
                assert(encode_utf8(tail@).subrange(
                    finish - start,
                    finish - start + close_marker().len(),
                ) =~= bytes@.subrange(finish as int, finish + close_marker().len()));
            }
            lemma_marker_at_boundary(tail@, close_marker(), finish - start);
        }
        let (block, _) = tail.split_at(finish - start);
        proof {
            assert(encode_utf8(block@) =~= bytes@.subrange(start as int, finish as int));
            encode_utf8_decode_utf8(block@);
        }
        block.to_owned()
    } else {
        PLACEHOLDER.to_owned()
    }
}

/// Both markers are non-empty ASCII strings.
pub proof fn lemma_markers_are_ascii()
    ensures
        is_ascii_chars(OPEN_MARKER@),
        is_ascii_chars(CLOSE_MARKER@),
        OPEN_MARKER@.len() == 5,
        CLOSE_MARKER@.len() == 6,
{
    reveal_strlit("<pre>");
    reveal_strlit("</pre>");
}

/// Where the first opening marker stands at character `start`, after the
/// description's beginning, the first closing marker at character `finish`,
/// not before it, and `finish` does not lie at the byte offset that stands
/// for a missing closing marker, the content is the description from `start`
/// to `finish`: the opening marker and what follows it up to the closing one.
pub proof fn lemma_content_between_markers(description: Seq<char>, start: int, finish: int)
    requires
        first_occurs_at(description, OPEN_MARKER@, start),
        first_occurs_at(description, CLOSE_MARKER@, finish),
        0 < start <= finish,
        byte_offset(description, finish) != missing_finish(),
    ensures
        content_of(description) == description.subrange(start, finish),
{
    lemma_markers_are_ascii();
    let bytes = encode_utf8(description);
    let s = byte_offset(description, start);
    let f = byte_offset(description, finish);
    lemma_first_occurrence_in_bytes(description, OPEN_MARKER@, start);
    lemma_first_occurrence_in_bytes(description, CLOSE_MARKER@, finish);
    lemma_first_occurrence_is(bytes, open_marker(), s);
    lemma_first_occurrence_is(bytes, close_marker(), f);
    lemma_byte_offset_monotone(description, 0, start);
    lemma_byte_offset_monotone(description, start, finish);
    assert(description.take(0) =~= Seq::<char>::empty());
    let block = description.subrange(start, finish);
    assert(description.take(finish) =~= description.take(start) + block);
    assert(description =~= description.take(finish) + description.skip(finish));
    lemma_encode_concat(description.take(start), block);
    lemma_encode_concat(description.take(finish), description.skip(finish));
    assert(bytes.subrange(s, f) =~= encode_utf8(block));
    encode_utf8_decode_utf8(block);
}

/// A description made of some text, a block `<pre>body</pre>` and more text
/// yields the opening marker and `body`, whatever tags `body` holds, where
/// the two markers of the block are the first of their kind, the text before
/// the block is not empty, and the closing marker does not lie at the byte
/// offset that stands for a missing one.
pub proof fn lemma_content_of_block(before: Seq<char>, body: Seq<char>, after: Seq<char>)
    requires
        before.len() > 0,
        first_occurs_at(
            before + OPEN_MARKER@ + body + CLOSE_MARKER@ + after,
            OPEN_MARKER@,
            before.len() as int,
        ),
        first_occurs_at(
            before + OPEN_MARKER@ + body + CLOSE_MARKER@ + after,
            CLOSE_MARKER@,
            (before + OPEN_MARKER@ + body).len() as int,
        ),
        encode_utf8(before + OPEN_MARKER@ + body).len() != missing_finish(),
    ensures
        content_of(before + OPEN_MARKER@ + body + CLOSE_MARKER@ + after) == OPEN_MARKER@ + body,
{
    let description = before + OPEN_MARKER@ + body + CLOSE_MARKER@ + after;
    let start = before.len() as int;
    let finish = (before + OPEN_MARKER@ + body).len() as int;
    assert(description.take(finish) =~= before + OPEN_MARKER@ + body);
    assert(description.subrange(start, finish) =~= OPEN_MARKER@ + body);
    lemma_content_between_markers(description, start, finish);
}

/// A description without an opening marker yields the placeholder, wherever
/// a closing marker may stand in it.
pub proof fn lemma_content_without_open_marker(description: Seq<char>)
    requires
        !occurs(description, OPEN_MARKER@),
    ensures
        content_of(description) == PLACEHOLDER@,
{
    lemma_markers_are_ascii();
    lemma_absent_in_bytes(description, OPEN_MARKER@);
    lemma_first_occurrence_none(encode_utf8(description), open_marker());
}

/// A description that begins with the opening marker yields the placeholder:
/// offset 0 is taken for a missing marker.
pub proof fn lemma_content_with_leading_open_marker(description: Seq<char>)
    requires
        occurs_at(description, OPEN_MARKER@, 0),
    ensures
        content_of(description) == PLACEHOLDER@,
{
    lemma_markers_are_ascii();
    assert(first_occurs_at(description, OPEN_MARKER@, 0));
    lemma_first_occurrence_in_bytes(description, OPEN_MARKER@, 0);
    assert(description.take(0) =~= Seq::<char>::empty());
    lemma_first_occurrence_is(encode_utf8(description), open_marker(), 0);
}

/// A description without a closing marker yields the placeholder.
pub proof fn lemma_content_without_close_marker(description: Seq<char>)
    requires
        !occurs(description, CLOSE_MARKER@),
    ensures
        content_of(description) == PLACEHOLDER@,
{
    lemma_markers_are_ascii();
    lemma_absent_in_bytes(description, CLOSE_MARKER@);
    lemma_first_occurrence_none(encode_utf8(description), close_marker());
}

/// A description that holds neither marker yields the placeholder.
pub proof fn lemma_content_without_markers(description: Seq<char>)
    requires
        !occurs(description, OPEN_MARKER@),
        !occurs(description, CLOSE_MARKER@),
    ensures
        content_of(description) == PLACEHOLDER@,
{
    lemma_content_without_open_marker(description);
}

/// A description whose first closing marker stands before its first opening
/// marker holds no block, and yields the placeholder.
pub proof fn lemma_content_with_markers_reversed(description: Seq<char>, start: int, finish: int)
    requires
        first_occurs_at(description, OPEN_MARKER@, start),
        first_occurs_at(description, CLOSE_MARKER@, finish),
        finish < start,
    ensures
        content_of(description) == PLACEHOLDER@,
{
    lemma_markers_are_ascii();
    let bytes = encode_utf8(description);
    lemma_first_occurrence_in_bytes(description, OPEN_MARKER@, start);
    lemma_first_occurrence_in_bytes(description, CLOSE_MARKER@, finish);
    lemma_first_occurrence_is(bytes, open_marker(), byte_offset(description, start));
    lemma_first_occurrence_is(bytes, close_marker(), byte_offset(description, finish));
    lemma_byte_offset_monotone(description, finish, start);
}

/// A description whose first closing marker lies at the byte offset that
/// stands for a missing one yields the placeholder.
pub proof fn lemma_content_with_finish_at_default(description: Seq<char>, finish: int)
    requires
        first_occurs_at(description, CLOSE_MARKER@, finish),
        byte_offset(description, finish) == missing_finish(),
    ensures
        content_of(description) == PLACEHOLDER@,
{
    lemma_markers_are_ascii();
    let bytes = encode_utf8(description);
    lemma_first_occurrence_in_bytes(description, CLOSE_MARKER@, finish);
    lemma_first_occurrence_is(bytes, close_marker(), byte_offset(description, finish));
}

} // verus!
