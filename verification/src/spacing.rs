//! The cut by length, told a second way: put a space between the digits
//! wherever a segment ends, and take the tokens of what comes of it.
use vstd::prelude::*;
use vstd::arithmetic::div_mod::{lemma_fundamental_div_mod, lemma_fundamental_div_mod_converse};
use crate::partition::{is_token, lemma_single_token, lemma_tokens_concat};
use crate::segment::{chunk_count, fixed_chunks, tokens};
use crate::text::is_whitespace;

verus! {

/// `digits` with a space put before every digit whose position is a multiple
/// of `size`, the digit at position 0 excepted.
pub open spec fn spaced(digits: Seq<char>, size: nat) -> Seq<char>
    decreases digits.len(),
{
    if digits.len() == 0 {
        Seq::empty()
    } else {
        let position = digits.len() - 1;
        let before = spaced(digits.drop_last(), size);
        if position != 0 && position % (size as int) == 0 {
            before.push(' ').push(digits.last())
        } else {
            before.push(digits.last())
        }
    }
}

/// `chunks`, one after the other, with a space between each two of them.
pub open spec fn joined(chunks: Seq<Seq<char>>) -> Seq<char>
    decreases chunks.len(),
{
    if chunks.len() == 0 {
        Seq::empty()
    } else if chunks.len() == 1 {
        chunks[0]
    } else {
        joined(chunks.drop_last()).push(' ') + chunks.last()
    }
}

/// How the number of chunks grows with the text: one character more makes
/// one chunk more where the chunks so far are all full, and else none.
pub proof fn lemma_chunk_count_step(len: nat, size: nat)
    requires
        size > 0,
    ensures
        chunk_count(len + 1, size) == len / size + 1,
        (len / size) * size <= len < (len / size + 1) * size,
        len % size == 0 ==> (len / size) * size == len,
{
    let q = (len / size) as int;
    let r = (len % size) as int;
    let d = size as int;
    lemma_fundamental_div_mod(len as int, d);
    assert(d * q == q * d) by (nonlinear_arith);
    assert((q + 1) * d == q * d + d) by (nonlinear_arith);
    if r + 1 < d {
        lemma_fundamental_div_mod_converse(len as int + 1, d, q, r + 1);
    } else {
        lemma_fundamental_div_mod_converse(len as int + 1, d, q + 1, 0);
    }
}

/// How the chunks change with one character more: it starts a chunk of its
/// own where the chunks so far are all full, and else it joins the last one.
pub proof fn lemma_fixed_chunks_step(text: Seq<char>, c: char, size: nat)
    requires
        size > 0,
    ensures
        text.len() % size == 0 ==> fixed_chunks(text.push(c), size) == fixed_chunks(
            text,
            size,
        ).push(seq![c]),
        text.len() % size != 0 ==> fixed_chunks(text, size).len() > 0 && fixed_chunks(
            text.push(c),
            size,
        ) == fixed_chunks(text, size).drop_last().push(fixed_chunks(text, size).last().push(c)),
{
    let len = text.len();
    let q = (len / size) as int;
    let d = size as int;
    let old_chunks = fixed_chunks(text, size);
    let new_chunks = fixed_chunks(text.push(c), size);
    lemma_chunk_count_step(len, size);
    assert((q + 1) * d == q * d + d) by (nonlinear_arith);
    assert forall|k: int| 0 <= k < q implies #[trigger] new_chunks[k] == text.subrange(
        k * d,
        (k + 1) * d,
    ) && (k + 1) * d <= len && 0 <= k * d by {
        assert((k + 1) * d <= q * d) by (nonlinear_arith)
            requires
                k + 1 <= q,
                d > 0,
        ;
        assert(0 <= k * d <= (k + 1) * d) by (nonlinear_arith)
            requires
                0 <= k,
                d > 0,
        ;
    }
    if len % size == 0 {
        let expected = old_chunks.push(seq![c]);
        assert forall|k: int| 0 <= k < q + 1 implies new_chunks[k] == #[trigger] expected[k] by {}
    } else {
        let expected = old_chunks.drop_last().push(old_chunks.last().push(c));
        assert forall|k: int| 0 <= k < q + 1 implies new_chunks[k] == #[trigger] expected[k] by {}
    }
}

/// Chunks that each have the shape of a token come back as the tokens of the
/// text in which a space stands between each two of them.
pub proof fn lemma_joined_tokens(chunks: Seq<Seq<char>>)
    requires
        forall|k: int| 0 <= k < chunks.len() ==> is_token(#[trigger] chunks[k]),
    ensures
        tokens(joined(chunks)) == chunks,
    decreases chunks.len(),
{
    if chunks.len() == 1 {
        lemma_single_token(chunks[0]);
    } else if chunks.len() > 1 {
        let before = chunks.drop_last();
        let last = chunks.last();
        let tail = seq![' '] + last;
        lemma_joined_tokens(before);
        assert(joined(chunks) == joined(before) + tail);
        lemma_tokens_concat(joined(before), tail);
        assert(tail.drop_first() == last);
        lemma_single_token(last);
    }
}

/// A text with a space before every digit whose position is a multiple of
/// `size` is its chunks of that length with a space between each two.
pub proof fn lemma_spaced_is_joined(digits: Seq<char>, size: nat)
    requires
        size > 0,
    ensures
        spaced(digits, size) == joined(fixed_chunks(digits, size)),
    decreases digits.len(),
{
    if digits.len() == 0 {
        assert(fixed_chunks(digits, size).len() == 0) by {
            lemma_chunk_count_step(0, size);
        }
    } else {
        let text = digits.drop_last();
        let c = digits.last();
        let len = text.len();
        let chunks = fixed_chunks(text, size);
        assert(text.push(c) == digits);
        lemma_spaced_is_joined(text, size);
        lemma_fixed_chunks_step(text, c, size);
        lemma_chunk_count_step(len, size);
        if len % size == 0 {
            let grown = chunks.push(seq![c]);
            assert(grown.drop_last() == chunks);
            if len > 0 {
                assert(chunks.len() > 0) by (nonlinear_arith)
                    requires
                        chunks.len() == len / size,
                        (len / size) * size == len,
                        len > 0,
                ;
            }
        } else {
            let grown = chunks.drop_last().push(chunks.last().push(c));
            if chunks.len() > 1 {
                assert(grown.drop_last() == chunks.drop_last());
            }
        }
    }
}

/// Cutting after every `size` digits is the same as putting a space before
/// every digit whose position is a multiple of `size`, the first digit
/// excepted, and splitting what comes of it at the spaces.
pub proof fn lemma_spaced_tokens(digits: Seq<char>, size: nat)
    requires
        size > 0,
        forall|i: int| 0 <= i < digits.len() ==> !is_whitespace(#[trigger] digits[i]),
    ensures
        tokens(spaced(digits, size)) == fixed_chunks(digits, size),
{
    let chunks = fixed_chunks(digits, size);
    lemma_spaced_is_joined(digits, size);
    assert forall|k: int| 0 <= k < chunks.len() implies is_token(#[trigger] chunks[k]) by {
        crate::partition::lemma_fixed_chunks_sizes(digits, size, k);
        crate::segment::lemma_chunk_count(digits.len(), size, k as nat);
    }
    lemma_joined_tokens(chunks);
}

/// One digit alone has no place for a space before it, whatever the segment
/// length, a length of zero too: it is the one token.
pub proof fn lemma_spaced_single(digits: Seq<char>, size: nat)
    requires
        digits.len() == 1,
        !is_whitespace(digits[0]),
    ensures
        tokens(spaced(digits, size)) == seq![digits],
{
    assert(spaced(digits.drop_last(), size) == Seq::<char>::empty());
    assert(spaced(digits, size) == digits);
    lemma_single_token(digits);
}

} // verus!
