//! The mathematical model: where the first token of a sequence ends.
//!
//! The scan is the same on bytes and on characters, so the model is stated
//! once, over a sequence of any items and the item that delimits, and then
//! named for the two uses: tokens of bytes, words of characters.

use vstd::prelude::*;

verus! {

/// The only byte that ends a token: the ASCII space.
pub const DELIMITER: u8 = 0x20;

/// The character that `DELIMITER` encodes.
pub const DELIMITER_CHAR: char = ' ';

/// No `delimiter` stands among the first `n` items.
pub open spec fn free_of<T>(items: Seq<T>, delimiter: T, n: int) -> bool {
    forall|j: int| 0 <= j < n ==> #[trigger] items[j] != delimiter
}

/// `end` is the position of the first `delimiter` in `items`, or the length
/// of `items` where it holds none.
pub open spec fn is_prefix_end<T>(items: Seq<T>, delimiter: T, end: int) -> bool {
    &&& 0 <= end <= items.len()
    &&& free_of(items, delimiter, end)
    &&& end < items.len() ==> items[end] == delimiter
}

/// The position of the first `delimiter` in `items`, or the length of `items`.
pub open spec fn prefix_end<T>(items: Seq<T>, delimiter: T) -> int {
    choose|end: int| is_prefix_end(items, delimiter, end)
}

/// `end` is where the first token of `bytes` ends.
pub open spec fn is_token_end(bytes: Seq<u8>, end: int) -> bool {
    is_prefix_end(bytes, DELIMITER, end)
}

/// The end of the first token of `bytes`.
pub open spec fn token_end(bytes: Seq<u8>) -> int {
    prefix_end(bytes, DELIMITER)
}

/// The first token of `bytes`: what precedes its first space byte.
pub open spec fn token_of(bytes: Seq<u8>) -> Seq<u8> {
    bytes.subrange(0, token_end(bytes))
}

/// The end of the first word of `chars`.
pub open spec fn word_end(chars: Seq<char>) -> int {
    prefix_end(chars, DELIMITER_CHAR)
}

/// The first word of `chars`: what precedes its first space.
pub open spec fn word_of(chars: Seq<char>) -> Seq<char> {
    chars.subrange(0, word_end(chars))
}

/// A sequence has at most one prefix end.
pub proof fn lemma_prefix_end_unique<T>(items: Seq<T>, delimiter: T, a: int, b: int)
    requires
        is_prefix_end(items, delimiter, a),
        is_prefix_end(items, delimiter, b),
    ensures
        a == b,
{
    if a < b {
        assert(items[a] != delimiter);
    }
    if b < a {
        assert(items[b] != delimiter);
    }
}

/// A scan that has met no delimiter before `from` comes to a prefix end.
proof fn lemma_prefix_end_from<T>(items: Seq<T>, delimiter: T, from: int)
    requires
        0 <= from <= items.len(),
        free_of(items, delimiter, from),
    ensures
        exists|end: int| is_prefix_end(items, delimiter, end),
    decreases items.len() - from,
{
    if from < items.len() && items[from] != delimiter {
        lemma_prefix_end_from(items, delimiter, from + 1);
    } else {
        assert(is_prefix_end(items, delimiter, from));
    }
}

/// Every sequence has a prefix end, and `prefix_end` is it.
pub proof fn lemma_prefix_end_total<T>(items: Seq<T>, delimiter: T)
    ensures
        is_prefix_end(items, delimiter, prefix_end(items, delimiter)),
{
    lemma_prefix_end_from(items, delimiter, 0);
}

/// A position that meets `is_prefix_end` is the prefix end.
pub proof fn lemma_prefix_end_is<T>(items: Seq<T>, delimiter: T, end: int)
    requires
        is_prefix_end(items, delimiter, end),
    ensures
        prefix_end(items, delimiter) == end,
{
    lemma_prefix_end_unique(items, delimiter, end, prefix_end(items, delimiter));
}

/// The token end of every byte sequence lies inside it, no space byte comes
/// before it, and a space byte stands at it unless it is the sequence's end.
pub proof fn lemma_token_end_total(bytes: Seq<u8>)
    ensures
        is_token_end(bytes, token_end(bytes)),
        0 <= token_end(bytes) <= bytes.len(),
        token_of(bytes).len() == token_end(bytes),
{
    lemma_prefix_end_total(bytes, DELIMITER);
}

} // verus!
