//! How the first token of a text's bytes relates to its characters.
//!
//! In UTF-8 the space is one byte, and that byte occurs in the encoding of
//! no other character. So the first space byte of a text stands where its
//! first space character does, and the token before it is a text again.

use crate::model::{
    is_prefix_end, is_token_end, lemma_prefix_end_is, lemma_prefix_end_total, token_end, token_of,
    word_end, word_of, DELIMITER, DELIMITER_CHAR,
};
use vstd::prelude::*;
use vstd::utf8::{
    char_is_scalar, char_u32_cast, encode_scalar, encode_utf8, has_width_1_encoding,
    has_width_2_encoding, has_width_3_encoding, is_char_boundary,
    is_char_boundary_iff_not_is_continuation_byte, is_char_boundary_start_end_of_seq,
    is_continuation_byte, is_scalar, last_continuation_byte, leading_byte_width_1,
    leading_byte_width_2, leading_byte_width_3, leading_byte_width_4,
    second_last_continuation_byte, third_last_continuation_byte, valid_utf8,
};

verus! {

/// In well-formed UTF-8 the first token ends between two characters.
pub proof fn lemma_token_end_on_boundary(bytes: Seq<u8>)
    requires
        valid_utf8(bytes),
    ensures
        is_char_boundary(bytes, token_end(bytes)),
{
    lemma_prefix_end_total(bytes, DELIMITER);
    let end = token_end(bytes);
    if end < bytes.len() {
        let b: u8 = bytes[end];
        assert(!is_continuation_byte(b)) by (bit_vector)
            requires
                b == 0x20u8,
        ;
        is_char_boundary_iff_not_is_continuation_byte(bytes, end);
    } else {
        is_char_boundary_start_end_of_seq(bytes);
    }
}

/// The space is encoded as the one byte `DELIMITER`, and the encoding of any
/// other character holds no such byte.
pub proof fn lemma_scalar_bytes(scalar: u32)
    requires
        is_scalar(scalar),
    ensures
        scalar == 0x20 ==> encode_scalar(scalar) == seq![DELIMITER],
        scalar != 0x20 ==> forall|j: int|
            0 <= j < encode_scalar(scalar).len() ==> #[trigger] encode_scalar(scalar)[j]
                != DELIMITER,
        1 <= encode_scalar(scalar).len() <= 4,
{
    if has_width_1_encoding(scalar) {
        assert(leading_byte_width_1(scalar) == 0x20u8 <==> scalar == 0x20u32) by (bit_vector)
            requires
                has_width_1_encoding(scalar),
        ;
    } else if has_width_2_encoding(scalar) {
        assert(leading_byte_width_2(scalar) != 0x20u8 && last_continuation_byte(scalar) != 0x20u8)
            by (bit_vector);
    } else if has_width_3_encoding(scalar) {
        assert(leading_byte_width_3(scalar) != 0x20u8 && second_last_continuation_byte(scalar)
            != 0x20u8 && last_continuation_byte(scalar) != 0x20u8) by (bit_vector);
    } else {
        assert(leading_byte_width_4(scalar) != 0x20u8 && third_last_continuation_byte(scalar)
            != 0x20u8 && second_last_continuation_byte(scalar) != 0x20u8
            && last_continuation_byte(scalar) != 0x20u8) by (bit_vector);
    }
}

/// The first token of a text's bytes is the encoding of its first word.
pub proof fn lemma_token_encodes_word(chars: Seq<char>)
    ensures
        token_of(encode_utf8(chars)) == encode_utf8(word_of(chars)),
    decreases chars.len(),
{
    let bytes = encode_utf8(chars);
    if chars.len() == 0 {
        lemma_prefix_end_is(chars, DELIMITER_CHAR, 0);
        lemma_prefix_end_is(bytes, DELIMITER, 0);
        assert(token_of(bytes) =~= encode_utf8(word_of(chars)));
    } else {
        let first = chars[0];
        let rest = chars.drop_first();
        let head = encode_scalar(first as u32);
        let tail = encode_utf8(rest);
        char_is_scalar(first);
        lemma_scalar_bytes(first as u32);
        if first == DELIMITER_CHAR {
            lemma_prefix_end_is(chars, DELIMITER_CHAR, 0);
            assert(bytes[0] == head[0]);
            lemma_prefix_end_is(bytes, DELIMITER, 0);
            assert(word_of(chars) =~= Seq::<char>::empty());
            assert(token_of(bytes) =~= encode_utf8(word_of(chars)));
        } else {
            assert(first as u32 != 0x20) by {
                char_u32_cast(first, first as u32);
                char_u32_cast(DELIMITER_CHAR, DELIMITER_CHAR as u32);
            }
            lemma_token_encodes_word(rest);
            lemma_prefix_end_total(rest, DELIMITER_CHAR);
            lemma_prefix_end_total(tail, DELIMITER);
            let w = word_end(rest);
            let t = token_end(tail);
            assert(is_prefix_end(chars, DELIMITER_CHAR, w + 1)) by {
                assert forall|j: int| 0 <= j < w + 1 implies #[trigger] chars[j]
                    != DELIMITER_CHAR by {
                    if j > 0 {
                        assert(chars[j] == rest[j - 1]);
                    }
                }
                if w + 1 < chars.len() {
                    assert(chars[w + 1] == rest[w]);
                }
            }
            lemma_prefix_end_is(chars, DELIMITER_CHAR, w + 1);
            let n = head.len() as int;
            assert(is_token_end(bytes, n + t)) by {
                assert forall|j: int| 0 <= j < n + t implies #[trigger] bytes[j] != DELIMITER by {
                    if j < n {
                        assert(bytes[j] == head[j]);
                    } else {
                        assert(bytes[j] == tail[j - n]);
                    }
                }
                if n + t < bytes.len() {
                    assert(bytes[n + t] == tail[t]);
                }
            }
            lemma_prefix_end_is(bytes, DELIMITER, n + t);
            let word = word_of(chars);
            assert(word.drop_first() =~= word_of(rest));
            assert(word[0] == first);
            assert(token_of(bytes) =~= head + token_of(tail));
        }
    }
}

} // verus!
