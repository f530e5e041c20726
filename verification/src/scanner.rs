//! The scanner: one pass over the bytes, up to the first delimiter.

use crate::encoding::{lemma_token_encodes_word, lemma_token_end_on_boundary};
use crate::model::{
    free_of, is_token_end, lemma_prefix_end_is, lemma_token_end_total, token_end, token_of,
    word_of, DELIMITER,
};
use crate::text_view::TextView;
use vstd::prelude::*;
use vstd::string::StringSliceAdditionalSpecFns;
use vstd::utf8::{encode_utf8, encode_utf8_decode_utf8, encode_utf8_valid_utf8};

verus! {

/// `view` is the first token of `buffer`: it is cut from `buffer`, starts at
/// its start and ends at its token end.
pub open spec fn is_first_token(buffer: Seq<u8>, view: TextView) -> bool {
    &&& view.source() == buffer
    &&& view.spec_start() == 0
    &&& view.spec_end() == token_end(buffer)
}

/// The first token of `buffer`: the view from its start up to its first
/// space byte, or of all of it where it holds no space.
pub fn first_token<'a>(buffer: &'a [u8]) -> (view: TextView<'a>)
    ensures
        is_first_token(buffer@, view),
        is_token_end(buffer@, view.spec_end() as int),
        0 <= view.spec_start() <= view.spec_end() <= buffer@.len(),
        view.bytes() == token_of(buffer@),
{
    let mut i: usize = 0;
    while i < buffer.len() && buffer[i] != DELIMITER
        invariant
            i <= buffer@.len(),
            free_of(buffer@, DELIMITER, i as int),
        decreases buffer@.len() - i,
    {
        i += 1;
    }
    proof {
        lemma_prefix_end_is(buffer@, DELIMITER, i as int);
    }
    TextView::new(buffer, 0, i)
}

/// The bounds of a first token lie inside the buffer, in order, and its end
/// is the buffer's first space byte or the buffer's end.
pub proof fn lemma_first_token_bounds(buffer: Seq<u8>, view: TextView)
    requires
        is_first_token(buffer, view),
    ensures
        0 <= view.spec_start() <= view.spec_end() <= buffer.len(),
        is_token_end(buffer, view.spec_end() as int),
        view.bytes() == token_of(buffer),
{
    lemma_token_end_total(buffer);
}

/// Scanning the same bytes twice gives the same bounds and the same token.
pub proof fn lemma_first_token_repeatable(buffer: Seq<u8>, first: TextView, second: TextView)
    requires
        is_first_token(buffer, first),
        is_first_token(buffer, second),
    ensures
        first.spec_start() == second.spec_start(),
        first.spec_end() == second.spec_end(),
        first.bytes() == second.bytes(),
{
}

/// The first word of `s`: what precedes its first space, or all of `s` where
/// it holds no space. The word borrows `s`.
pub fn better_first_word<'a>(s: &'a str) -> (word: &'a str)
    ensures
        word@ == word_of(s@),
        word.spec_bytes() == token_of(s.spec_bytes()),
{
    let bytes: &[u8] = s.as_bytes();
    let end: usize = first_token(bytes).end();
    proof {
        encode_utf8_valid_utf8(s@);
        lemma_token_end_on_boundary(s.spec_bytes());
    }
    let (word, _) = s.split_at(end);
    proof {
        lemma_token_encodes_word(s@);
        encode_utf8_decode_utf8(word@);
        encode_utf8_decode_utf8(word_of(s@));
    }
    word
}

/// The first word of the string `s`, as `better_first_word` gives it.
pub fn first_word<'a>(s: &'a String) -> (word: &'a str)
    ensures
        word@ == word_of(s@),
        word.spec_bytes() == token_of(encode_utf8(s@)),
{
    better_first_word(s.as_str())
}

} // verus!
