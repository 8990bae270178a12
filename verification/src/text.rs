//! Text in pieces and text from bytes.

use itertools::Itertools;
use vstd::prelude::*;
use vstd::utf8::*;

verus! {

/// The pieces of `text` of `size` characters each, in order. The last piece
/// holds what is left and may be shorter; the empty text has no piece.
pub open spec fn chunks_of(text: Seq<char>, size: int) -> Seq<Seq<char>>
    decreases text.len(),
{
    if size <= 0 || text.len() == 0 {
        Seq::empty()
    } else if text.len() <= size {
        seq![text]
    } else {
        seq![text.take(size)] + chunks_of(text.skip(size), size)
    }
}

/// Cuts `text` into pieces of `size` characters with `Itertools::chunks` and
/// collects each piece into a `String`.
///
/// Trusted: itertools documents that every chunk yields `size` elements, that
/// the last one is shorter when fewer are left, and that it panics on size 0.
/// An iterator without elements yields no chunk.
#[verifier::external_body]
pub(crate) fn char_chunks(text: &str, size: usize) -> (pieces: Vec<String>)
    requires
        size > 0,
    ensures
        pieces@.len() == chunks_of(text@, size as int).len(),
        forall|i: int|
            0 <= i < pieces@.len() ==> (#[trigger] pieces@[i])@ == chunks_of(text@, size as int)[i],
{
    let chunks = text.chars().chunks(size);
    chunks.into_iter().map(|chunk| chunk.collect::<String>()).collect()
}

/// Reads bytes as UTF-8 text with `String::from_utf8`.
///
/// Trusted: std documents that the call succeeds exactly when the bytes are
/// valid UTF-8, and that the string then consists of those bytes.
#[verifier::external_body]
pub(crate) fn text_from_utf8(bytes: Vec<u8>) -> (text: Option<String>)
    ensures
        text is Some <==> valid_utf8(bytes@),
        text matches Some(s) ==> encode_utf8(s@) == bytes@,
{
    String::from_utf8(bytes).ok()
}

/// Every piece but the last has exactly `size` characters; the last has
/// between one and `size`.
pub proof fn lemma_chunk_lengths(text: Seq<char>, size: int, i: int)
    requires
        size > 0,
        0 <= i < chunks_of(text, size).len(),
    ensures
        0 < chunks_of(text, size)[i].len() <= size,
        i + 1 < chunks_of(text, size).len() ==> chunks_of(text, size)[i].len() == size,
    decreases text.len(),
{
    if text.len() > size && i > 0 {
        lemma_chunk_lengths(text.skip(size), size, i - 1);
    }
}

/// The pieces, joined in order, are the text.
pub proof fn lemma_chunks_join(text: Seq<char>, size: int)
    requires
        size > 0,
    ensures
        chunks_of(text, size).flatten() == text,
    decreases text.len(),
{
    if text.len() > size {
        lemma_chunks_join(text.skip(size), size);
        assert(chunks_of(text, size).drop_first() =~= chunks_of(text.skip(size), size));
    } else if text.len() > 0 {
        seq![text].lemma_flatten_one_element();
    }
}

/// A text of `size + 1` characters makes two pieces: the first `size`
/// characters, then the last one.
pub proof fn lemma_chunks_one_over(text: Seq<char>, size: int)
    requires
        size > 0,
        text.len() == size + 1,
    ensures
        chunks_of(text, size) == seq![text.take(size), text.skip(size)],
{
    let rest = text.skip(size);
    assert(chunks_of(rest, size) == seq![rest]);
}

/// No character takes more than four bytes in UTF-8.
pub proof fn lemma_utf8_len_bound(text: Seq<char>)
    ensures
        encode_utf8(text).len() <= 4 * text.len(),
    decreases text.len(),
{
    if text.len() > 0 {
        lemma_utf8_len_bound(text.drop_first());
    }
}

} // verus!
