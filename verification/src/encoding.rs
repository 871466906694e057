//! How a text's characters and the bytes of its UTF-8 encoding correspond.
//!
//! Offsets into a `str` count bytes, while a text's view is a sequence of
//! characters. The lemmas here carry an occurrence of an ASCII string from
//! one to the other.

use crate::search::{first_occurs_at, occurs, occurs_at};
use vstd::prelude::*;
use vstd::utf8::{
    char_u32_cast, decode_utf8, decode_utf8_encode_utf8, decode_utf8_split, encode_utf8,
    encode_utf8_decode_utf8, encode_utf8_first_scalar, encode_utf8_valid_utf8, is_ascii_chars,
    is_ascii_chars_encode_utf8, is_char_boundary_iff_not_is_continuation_byte, valid_utf8_split,
};

verus! {

/// The number of bytes that the first `k` characters of `chars` take.
pub open spec fn byte_offset(chars: Seq<char>, k: int) -> int {
    encode_utf8(chars.take(k)).len() as int
}

/// Encoding goes through concatenation.
pub proof fn lemma_encode_concat(a: Seq<char>, b: Seq<char>)
    ensures
        encode_utf8(a + b) == encode_utf8(a) + encode_utf8(b),
    decreases a.len(),
{
    if a.len() == 0 {
        assert(a + b =~= b);
        assert(encode_utf8(a) + encode_utf8(b) =~= encode_utf8(b));
    } else {
        lemma_encode_concat(a.drop_first(), b);
        assert((a + b).drop_first() =~= a.drop_first() + b);
        assert(encode_utf8(a + b) =~= encode_utf8(a) + encode_utf8(b));
    }
}

/// Every character takes at least one byte.
pub proof fn lemma_encode_len(a: Seq<char>)
    ensures
        encode_utf8(a).len() >= a.len(),
    decreases a.len(),
{
    if a.len() > 0 {
        lemma_encode_len(a.drop_first());
    }
}

/// A longer prefix takes no fewer bytes, and a strictly longer one takes more.
pub proof fn lemma_byte_offset_monotone(chars: Seq<char>, j: int, k: int)
    requires
        0 <= j <= k <= chars.len(),
    ensures
        byte_offset(chars, j) <= byte_offset(chars, k),
        j < k ==> byte_offset(chars, j) < byte_offset(chars, k),
        byte_offset(chars, k) <= encode_utf8(chars).len(),
{
    let mid = chars.subrange(j, k);
    assert(chars.take(k) =~= chars.take(j) + mid);
    lemma_encode_concat(chars.take(j), mid);
    lemma_encode_len(mid);
    assert(chars =~= chars.take(k) + chars.skip(k));
    lemma_encode_concat(chars.take(k), chars.skip(k));
}

/// Where the encoding of `chars` begins with the bytes of an ASCII string,
/// `chars` begins with that string.
pub proof fn lemma_ascii_prefix(chars: Seq<char>, needle: Seq<char>)
    requires
        is_ascii_chars(needle),
        occurs_at(encode_utf8(chars), encode_utf8(needle), 0),
    ensures
        occurs_at(chars, needle, 0),
    decreases needle.len(),
{
    is_ascii_chars_encode_utf8(needle);
    let bytes = encode_utf8(chars);
    let n = needle.len() as int;
    if n == 0 {
        assert(chars.subrange(0, 0) =~= needle);
    } else {
        assert(bytes.subrange(0, n)[0] == bytes[0]);
        assert(bytes[0] == needle[0] as u8);
        assert(chars.len() > 0);
        encode_utf8_first_scalar(chars);
        let b0 = bytes[0];
        assert(b0 <= 0x7f ==> (b0 & 0x7f) as u32 == b0 as u32) by (bit_vector);
        assert(chars[0] as u32 == needle[0] as u32);
        assert(chars[0] == needle[0]) by {
            char_u32_cast(chars[0], chars[0] as u32);
            char_u32_cast(needle[0], needle[0] as u32);
        }
        let rest = chars.drop_first();
        let tail = needle.drop_first();
        assert(encode_utf8(rest) =~= bytes.subrange(1, bytes.len() as int));
        is_ascii_chars_encode_utf8(tail);
        assert(encode_utf8(rest).subrange(0, n - 1) =~= encode_utf8(tail)) by {
            assert forall|i: int| 0 <= i < n - 1 implies encode_utf8(rest).subrange(0, n - 1)[i]
                == encode_utf8(tail)[i] by {
                assert(bytes.subrange(0, n)[i + 1] == bytes[i + 1]);
                assert(tail[i] == needle[i + 1]);
            }
        }
        lemma_ascii_prefix(rest, tail);
        assert(chars.subrange(0, n) =~= needle) by {
            assert forall|i: int| 0 <= i < n implies chars.subrange(0, n)[i] == needle[i] by {
                if i > 0 {
                    assert(rest.subrange(0, n - 1)[i - 1] == tail[i - 1]);
                }
            }
        }
    }
}

/// An occurrence among the characters is one among the bytes, at the offset
/// that the characters before it take.
pub proof fn lemma_occurrence_in_bytes(chars: Seq<char>, needle: Seq<char>, k: int)
    requires
        occurs_at(chars, needle, k),
    ensures
        occurs_at(encode_utf8(chars), encode_utf8(needle), byte_offset(chars, k)),
{
    let n = needle.len() as int;
    let before = chars.take(k);
    let after = chars.skip(k + n);
    assert(chars =~= before + needle + after);
    lemma_encode_concat(before, needle);
    lemma_encode_concat(before + needle, after);
    let i = byte_offset(chars, k);
    assert(encode_utf8(chars).subrange(i, i + encode_utf8(needle).len()) =~= encode_utf8(needle));
}

/// An occurrence of a non-empty ASCII string among the bytes begins a
/// character, and is an occurrence among the characters.
pub proof fn lemma_occurrence_in_chars(chars: Seq<char>, needle: Seq<char>, at: int) -> (k: int)
    requires
        is_ascii_chars(needle),
        needle.len() > 0,
        occurs_at(encode_utf8(chars), encode_utf8(needle), at),
    ensures
        0 <= k <= chars.len(),
        byte_offset(chars, k) == at,
        occurs_at(chars, needle, k),
{
    let bytes = encode_utf8(chars);
    let n = encode_utf8(needle).len() as int;
    is_ascii_chars_encode_utf8(needle);
    encode_utf8_valid_utf8(chars);
    assert(bytes.subrange(at, at + n)[0] == bytes[at]);
    is_char_boundary_iff_not_is_continuation_byte(bytes, at);
    valid_utf8_split(bytes, at);
    decode_utf8_split(bytes, at);
    let head = bytes.subrange(0, at);
    let tail = bytes.subrange(at, bytes.len() as int);
    let a = decode_utf8(head);
    let b = decode_utf8(tail);
    encode_utf8_decode_utf8(chars);
    assert(chars =~= a + b);
    decode_utf8_encode_utf8(head);
    decode_utf8_encode_utf8(tail);
    let k = a.len() as int;
    assert(chars.take(k) =~= a);
    assert(tail.subrange(0, n) =~= bytes.subrange(at, at + n));
    lemma_ascii_prefix(b, needle);
    assert(chars.subrange(k, k + needle.len()) =~= b.subrange(0, needle.len() as int));
    k
}

/// The first occurrence of a non-empty ASCII string among the characters is
/// its first occurrence among the bytes.
pub proof fn lemma_first_occurrence_in_bytes(chars: Seq<char>, needle: Seq<char>, k: int)
    requires
        is_ascii_chars(needle),
        needle.len() > 0,
        first_occurs_at(chars, needle, k),
    ensures
        first_occurs_at(encode_utf8(chars), encode_utf8(needle), byte_offset(chars, k)),
{
    lemma_occurrence_in_bytes(chars, needle, k);
    let at = byte_offset(chars, k);
    assert forall|j: int| 0 <= j < at implies !occurs_at(
        encode_utf8(chars),
        encode_utf8(needle),
        j,
    ) by {
        if occurs_at(encode_utf8(chars), encode_utf8(needle), j) {
            let m = lemma_occurrence_in_chars(chars, needle, j);
            if m >= k {
                lemma_byte_offset_monotone(chars, k, m);
            }
            assert(!occurs_at(chars, needle, m));
        }
    }
}

/// A non-empty ASCII string that stands nowhere among the characters stands
/// nowhere among the bytes.
pub proof fn lemma_absent_in_bytes(chars: Seq<char>, needle: Seq<char>)
    requires
        is_ascii_chars(needle),
        needle.len() > 0,
        !occurs(chars, needle),
    ensures
        !occurs(encode_utf8(chars), encode_utf8(needle)),
{
    if occurs(encode_utf8(chars), encode_utf8(needle)) {
        let at = choose|at: int| occurs_at(encode_utf8(chars), encode_utf8(needle), at);
        let k = lemma_occurrence_in_chars(chars, needle, at);
        assert(occurs_at(chars, needle, k));
    }
}

} // verus!
