//! Words.
//!
//! Text is split at Unicode word boundaries by `unicode-segmentation`; the
//! pieces that hold more than white space are the words.
use crate::selection::Selection;
use crate::strings::{blank, is_blank, str_len};
use crate::text::{byte_len, lemma_measure_concat, Unit};
use vstd::prelude::*;

verus! {

/// The pieces that the Unicode word boundaries split a text into.
pub uninterp spec fn word_bounds(text: Seq<char>) -> Seq<Seq<char>>;

/// The texts of `pieces`, one after the other.
pub open spec fn joined(pieces: Seq<Seq<char>>) -> Seq<char>
    decreases pieces.len(),
{
    if pieces.len() == 0 {
        Seq::empty()
    } else {
        joined(pieces.drop_last()) + pieces.last()
    }
}

/// The texts of a list of pieces and offsets.
pub open spec fn piece_texts(pieces: Seq<(usize, String)>) -> Seq<Seq<char>> {
    pieces.map_values(|p: (usize, String)| p.1@)
}

/// Whether every piece stands at the byte offset at which its text starts.
pub open spec fn placed(pieces: Seq<(usize, String)>) -> bool {
    forall|i: int|
        0 <= i < pieces.len() ==> (#[trigger] pieces[i]).0 == byte_len(
            joined(piece_texts(pieces).take(i)),
        )
}

/// `UnicodeSegmentation::split_word_bound_indices` splits a text into
/// non-empty pieces, each with its byte offset. Put together, the pieces are
/// the text again.
#[verifier::external_body]
fn split_word_bound_indices(text: &str) -> (pieces: Vec<(usize, String)>)
    ensures
        piece_texts(pieces@) == word_bounds(text@),
        joined(piece_texts(pieces@)) == text@,
        placed(pieces@),
        forall|i: int| 0 <= i < pieces@.len() ==> (#[trigger] pieces@[i]).1@.len() > 0,
{
    unicode_segmentation::UnicodeSegmentation::split_word_bound_indices(text)
        .map(|(offset, piece)| (offset, piece.to_string()))
        .collect()
}

/// The index of the last piece that is not blank; -1 when there is none.
pub open spec fn last_word(pieces: Seq<Seq<char>>) -> int
    decreases pieces.len(),
{
    if pieces.len() == 0 {
        -1
    } else if !blank(pieces.last()) {
        pieces.len() - 1
    } else {
        last_word(pieces.drop_last())
    }
}

/// The index of the first piece that is not blank; the number of pieces when there is none.
pub open spec fn first_word(pieces: Seq<Seq<char>>) -> int
    decreases pieces.len(),
{
    if pieces.len() == 0 || !blank(pieces[0]) {
        0
    } else {
        1 + first_word(pieces.skip(1))
    }
}

/// The offset at which the last word starts; 0 when there is none.
pub open spec fn last_word_start(pieces: Seq<Seq<char>>) -> int {
    let k = last_word(pieces);
    if k < 0 {
        0
    } else {
        byte_len(joined(pieces.take(k))) as int
    }
}

/// The offset at which the first word ends; the end of the text when there is none.
pub open spec fn first_word_end(pieces: Seq<Seq<char>>) -> int {
    let k = first_word(pieces);
    if k < pieces.len() {
        byte_len(joined(pieces.take(k + 1))) as int
    } else {
        byte_len(joined(pieces)) as int
    }
}

proof fn lemma_joined_take(pieces: Seq<Seq<char>>, i: int)
    requires
        0 <= i < pieces.len(),
    ensures
        byte_len(joined(pieces.take(i + 1))) == byte_len(joined(pieces.take(i))) + byte_len(
            pieces[i],
        ),
{
    assert(pieces.take(i + 1).drop_last() =~= pieces.take(i));
    lemma_measure_concat(Unit::Utf8, joined(pieces.take(i)), pieces[i]);
}

/// The words that the pieces hold do not reach beyond the text.
pub proof fn lemma_joined_mono(pieces: Seq<Seq<char>>, i: int, j: int)
    requires
        0 <= i <= j <= pieces.len(),
    ensures
        byte_len(joined(pieces.take(i))) <= byte_len(joined(pieces.take(j))),
    decreases j - i,
{
    if i < j {
        lemma_joined_take(pieces, j - 1);
        lemma_joined_mono(pieces, i, j - 1);
    }
}

/// Where the last word of the pieces starts.
pub fn last_word_offset(pieces: &Vec<(usize, String)>) -> (o: usize)
    requires
        placed(pieces@),
    ensures
        o == last_word_start(piece_texts(pieces@)),
{
    let ghost texts = piece_texts(pieces@);
    let mut i: usize = pieces.len();
    assert(texts.take(texts.len() as int) =~= texts);
    while i > 0
        invariant
            i <= pieces.len(),
            texts == piece_texts(pieces@),
            placed(pieces@),
            last_word(texts) == last_word(texts.take(i as int)),
        decreases i,
    {
        i = i - 1;
        assert(texts.take(i as int + 1).drop_last() =~= texts.take(i as int));
        assert(texts[i as int] == pieces@[i as int].1@);
        if !is_blank(pieces[i].1.as_str()) {
            return pieces[i].0;
        }
    }
    0
}

/// Where the first word of the pieces ends.
pub fn first_word_offset(pieces: &Vec<(usize, String)>, len: usize) -> (o: usize)
    requires
        placed(pieces@),
        len == byte_len(joined(piece_texts(pieces@))),
    ensures
        o == first_word_end(piece_texts(pieces@)),
{
    let ghost texts = piece_texts(pieces@);
    let mut i: usize = 0;
    assert(texts.skip(0) =~= texts);
    assert(texts.take(texts.len() as int) =~= texts);
    while i < pieces.len()
        invariant
            i <= pieces.len(),
            texts == piece_texts(pieces@),
            placed(pieces@),
            len == byte_len(joined(texts)),
            texts.take(texts.len() as int) == texts,
            first_word(texts) == i + first_word(texts.skip(i as int)),
        decreases pieces.len() - i,
    {
        assert(texts[i as int] == pieces@[i as int].1@);
        assert(texts.skip(i as int)[0] == texts[i as int]);
        if !is_blank(pieces[i].1.as_str()) {
            proof {
                lemma_joined_take(texts, i as int);
                lemma_joined_mono(texts, i as int + 1, texts.len() as int);
            }
            return pieces[i].0 + str_len(pieces[i].1.as_str());
        }
        assert(texts.skip(i as int).skip(1) =~= texts.skip(i as int + 1));
        i = i + 1;
    }
    len
}

/// The byte offset at which the last word of `text` starts; 0 when it holds none.
pub fn previous_word_start(text: &str) -> (o: usize)
    ensures
        o == last_word_start(word_bounds(text@)),
        o <= byte_len(text@),
{
    let pieces = split_word_bound_indices(text);
    let o = last_word_offset(&pieces);
    proof {
        let texts = piece_texts(pieces@);
        lemma_last_word(texts);
        assert(texts.take(texts.len() as int) =~= texts);
        if last_word(texts) >= 0 {
            lemma_joined_mono(texts, last_word(texts), texts.len() as int);
        }
    }
    o
}

/// The byte offset at which the first word of `text` ends; its length when it holds none.
pub fn next_word_end(text: &str) -> (o: usize)
    ensures
        o == first_word_end(word_bounds(text@)),
        o <= byte_len(text@),
{
    let pieces = split_word_bound_indices(text);
    let o = first_word_offset(&pieces, str_len(text));
    proof {
        let texts = piece_texts(pieces@);
        lemma_first_word(texts);
        assert(texts.take(texts.len() as int) =~= texts);
        if first_word(texts) < texts.len() {
            lemma_joined_mono(texts, first_word(texts) + 1, texts.len() as int);
        }
    }
    o
}

/// The index of the piece that holds byte offset `o`; the number of pieces beyond their end.
pub open spec fn piece_at(pieces: Seq<Seq<char>>, o: int) -> int
    decreases pieces.len(),
{
    if pieces.len() == 0 {
        0
    } else {
        let k = piece_at(pieces.drop_last(), o);
        if k == pieces.len() - 1 && o >= byte_len(joined(pieces)) {
            pieces.len() as int
        } else {
            k
        }
    }
}

/// The bytes of the piece that holds byte offset `o`; the end of the text beyond it.
pub open spec fn piece_range(pieces: Seq<Seq<char>>, o: int) -> (int, int) {
    let k = piece_at(pieces, o);
    if k < pieces.len() {
        (byte_len(joined(pieces.take(k))) as int, byte_len(joined(pieces.take(k + 1))) as int)
    } else {
        (byte_len(joined(pieces)) as int, byte_len(joined(pieces)) as int)
    }
}

/// The bytes of the piece that holds `offset`.
pub fn piece_range_at(pieces: &Vec<(usize, String)>, len: usize, offset: usize) -> (r: Selection)
    requires
        placed(pieces@),
        len == byte_len(joined(piece_texts(pieces@))),
    ensures
        (r.start as int, r.end as int) == piece_range(piece_texts(pieces@), offset as int),
{
    let ghost texts = piece_texts(pieces@);
    assert(texts.take(0) =~= Seq::empty());
    assert(texts.take(texts.len() as int) =~= texts);
    for i in 0..pieces.len()
        invariant
            texts == piece_texts(pieces@),
            placed(pieces@),
            len == byte_len(joined(texts)),
            texts.take(texts.len() as int) == texts,
            piece_at(texts.take(i as int), offset as int) == i,
    {
        assert(texts[i as int] == pieces@[i as int].1@);
        assert(texts.take(i as int + 1).drop_last() =~= texts.take(i as int));
        proof {
            lemma_joined_take(texts, i as int);
            lemma_joined_mono(texts, i as int + 1, texts.len() as int);
        }
        let end: usize = pieces[i].0 + str_len(pieces[i].1.as_str());
        if offset < end {
            proof {
                lemma_piece_at_found(texts, offset as int, i as int);
            }
            return Selection { start: pieces[i].0, end };
        }
    }
    Selection { start: len, end: len }
}

proof fn lemma_piece_at_found(pieces: Seq<Seq<char>>, o: int, i: int)
    requires
        0 <= i < pieces.len(),
        piece_at(pieces.take(i + 1), o) == i,
    ensures
        piece_at(pieces, o) == i,
    decreases pieces.len(),
{
    if i == pieces.len() - 1 {
        assert(pieces.take(i + 1) =~= pieces);
    } else {
        assert(pieces.drop_last().take(i + 1) =~= pieces.take(i + 1));
        lemma_piece_at_found(pieces.drop_last(), o, i);
    }
}

/// The bytes of the word of `text` at `offset`, or of what stands there in place of a word.
pub fn word_range_at(text: &str, offset: usize) -> (r: Selection)
    ensures
        (r.start as int, r.end as int) == piece_range(word_bounds(text@), offset as int),
        r.start <= r.end <= byte_len(text@),
{
    let pieces = split_word_bound_indices(text);
    let r = piece_range_at(&pieces, str_len(text), offset);
    proof {
        let texts = piece_texts(pieces@);
        assert(texts.take(texts.len() as int) =~= texts);
        let k = piece_at(texts, offset as int);
        lemma_piece_at(texts, offset as int);
        if k < texts.len() {
            lemma_joined_mono(texts, k, k + 1);
            lemma_joined_mono(texts, k + 1, texts.len() as int);
        }
    }
    r
}

proof fn lemma_piece_at(pieces: Seq<Seq<char>>, o: int)
    ensures
        0 <= piece_at(pieces, o) <= pieces.len(),
    decreases pieces.len(),
{
    if pieces.len() > 0 {
        lemma_piece_at(pieces.drop_last(), o);
    }
}

proof fn lemma_last_word(pieces: Seq<Seq<char>>)
    ensures
        -1 <= last_word(pieces) < pieces.len(),
    decreases pieces.len(),
{
    if pieces.len() > 0 {
        lemma_last_word(pieces.drop_last());
    }
}

proof fn lemma_first_word(pieces: Seq<Seq<char>>)
    ensures
        0 <= first_word(pieces) <= pieces.len(),
    decreases pieces.len(),
{
    if pieces.len() > 0 {
        lemma_first_word(pieces.skip(1));
    }
}

} // verus!
