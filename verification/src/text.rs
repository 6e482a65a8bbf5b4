//! Strings and their bytes: cutting a string after a prefix of ASCII bytes.

use crate::extent::spans_ascii;
use crate::notation::as_text;
use vstd::prelude::*;
use vstd::string::StringSliceAdditionalSpecFns;
use vstd::utf8::{
    decode_utf8, decode_utf8_split, encode_utf8, encode_utf8_decode_utf8, encode_utf8_valid_utf8,
    is_ascii_chars, is_ascii_chars_encode_utf8, is_char_boundary, length_of_first_scalar,
    pop_first_scalar, valid_utf8,
};

verus! {

/// In valid UTF-8, the position after a prefix of ASCII bytes is the
/// boundary of a character.
pub proof fn lemma_ascii_prefix_ends_at_boundary(bytes: Seq<u8>, n: int)
    requires
        valid_utf8(bytes),
        spans_ascii(bytes, 0, n),
    ensures
        is_char_boundary(bytes, n),
    decreases n,
{
    if n > 0 {
        assert(bytes[0] < 0x80);
        assert(length_of_first_scalar(bytes) == 1);
        let rest = pop_first_scalar(bytes);
        assert(rest == bytes.subrange(1, bytes.len() as int));
        assert forall|i: int| 0 <= i < n - 1 implies #[trigger] rest[i] < 0x80 by {
            assert(rest[i] == bytes[i + 1]);
        }
        lemma_ascii_prefix_ends_at_boundary(rest, n - 1);
    }
}

/// ASCII bytes are the UTF-8 encoding of the text they spell.
pub proof fn lemma_ascii_bytes_encode_their_text(bytes: Seq<u8>)
    requires
        spans_ascii(bytes, 0, bytes.len() as int),
    ensures
        is_ascii_chars(as_text(bytes)),
        encode_utf8(as_text(bytes)) == bytes,
        decode_utf8(bytes) == as_text(bytes),
{
    let chars = as_text(bytes);
    assert forall|i: int| 0 <= i < chars.len() implies '\0' <= #[trigger] chars[i] <= '\u{7f}' by {
        assert(bytes[i] < 0x80);
    }
    is_ascii_chars_encode_utf8(chars);
    assert forall|i: int| 0 <= i < bytes.len() implies encode_utf8(chars)[i] == bytes[i] by {
        assert(bytes[i] < 0x80);
        assert(chars[i] as u8 == bytes[i]);
    }
    assert(encode_utf8(chars) =~= bytes);
    encode_utf8_decode_utf8(chars);
}

/// Cuts `text` after its first `n` bytes, which are ASCII.
pub(crate) fn split_after_ascii(text: &str, n: usize) -> (rest: &str)
    requires
        spans_ascii(text.spec_bytes(), 0, n as int),
    ensures
        rest.spec_bytes() == text.spec_bytes().skip(n as int),
        rest@ == text@.skip(n as int),
        text@.take(n as int) == as_text(text.spec_bytes().take(n as int)),
{
    let ghost bytes = text.spec_bytes();
    proof {
        encode_utf8_valid_utf8(text@);
        lemma_ascii_prefix_ends_at_boundary(bytes, n as int);
    }
    let (_, rest) = text.split_at(n);
    proof {
        let head = bytes.subrange(0, n as int);
        let tail = bytes.subrange(n as int, bytes.len() as int);
        assert(tail == bytes.skip(n as int));
        assert(head == bytes.take(n as int));
        decode_utf8_split(bytes, n as int);
        encode_utf8_decode_utf8(text@);
        encode_utf8_decode_utf8(rest@);
        lemma_ascii_bytes_encode_their_text(head);
        assert(text@ == as_text(head) + rest@);
        assert(as_text(head).len() == n);
        assert(rest@ =~= text@.skip(n as int));
        assert(text@.take(n as int) =~= as_text(head));
    }
    rest
}

} // verus!
