//! What the segments have in common with the input that they were cut from:
//! the tokens, the even cut and the cut by length each lose no digit, add
//! none, and keep the digits in their order.
use vstd::prelude::*;
use crate::digits::lemma_keeping_digits;
use crate::segment::{admits, chunk_start, even_chunks, fixed_chunks, lemma_chunk_count,
    lemma_chunk_start, lemma_has_digit, lemma_token_len, lemma_token_len_is, segmented, token_len,
    tokens, Policy};
use crate::text::{digits_of, has_digit, is_digit, is_whitespace, text_len};

verus! {

/// `t` has the shape of a token: it holds a character, and no whitespace.
pub open spec fn is_token(t: Seq<char>) -> bool {
    t.len() > 0 && forall|j: int| 0 <= j < t.len() ==> !is_whitespace(#[trigger] t[j])
}

/// Every token holds a character, and none holds whitespace.
pub proof fn lemma_tokens_shape(s: Seq<char>)
    ensures
        forall|k: int| 0 <= k < tokens(s).len() ==> is_token(#[trigger] tokens(s)[k]),
    decreases s.len(),
{
    if s.len() == 0 {
    } else if is_whitespace(s[0]) {
        lemma_tokens_shape(s.drop_first());
        assert(tokens(s) == tokens(s.drop_first()));
    } else {
        lemma_token_len(s);
        let n = token_len(s) as int;
        lemma_tokens_shape(s.skip(n));
        assert forall|k: int| 0 <= k < tokens(s).len() implies is_token(
            #[trigger] tokens(s)[k],
        ) by {
            if k > 0 {
                assert(tokens(s)[k] == tokens(s.skip(n))[k - 1]);
            }
        }
    }
}

/// A text without whitespace is its own and only token.
pub proof fn lemma_single_token(input: Seq<char>)
    requires
        is_token(input),
    ensures
        tokens(input) == seq![input],
{
    lemma_token_len_is(input, input.len());
    let n = token_len(input) as int;
    assert(input.take(n) == input);
    assert(tokens(input) == seq![input.take(n)] + tokens(input.skip(n)));
}

/// The tokens of two texts, one after the other, are the tokens of the first
/// and then those of the second, where the second starts with whitespace or is
/// empty.
pub proof fn lemma_tokens_concat(a: Seq<char>, b: Seq<char>)
    requires
        b.len() == 0 || is_whitespace(b[0]),
    ensures
        tokens(a + b) == tokens(a) + tokens(b),
    decreases a.len(),
{
    let whole = a + b;
    if a.len() == 0 {
    } else if is_whitespace(a[0]) {
        assert(whole.drop_first() == a.drop_first() + b);
        lemma_tokens_concat(a.drop_first(), b);
    } else {
        lemma_token_len(a);
        let n = token_len(a);
        lemma_token_len_is(whole, n);
        assert(whole.take(n as int) == a.take(n as int));
        assert(whole.skip(n as int) == a.skip(n as int) + b);
        lemma_tokens_concat(a.skip(n as int), b);
    }
}

/// The tokens of a text, one after the other, are the text without its
/// whitespace.
pub proof fn lemma_tokens_flatten(s: Seq<char>)
    ensures
        tokens(s).flatten() == s.filter(|c: char| !is_whitespace(c)),
    decreases s.len(),
{
    let keep = |c: char| !is_whitespace(c);
    if s.len() == 0 {
        reveal(Seq::filter);
    } else if is_whitespace(s[0]) {
        let t = s.drop_first();
        lemma_tokens_flatten(t);
        assert(s == seq![s[0]] + t);
        Seq::filter_distributes_over_add(seq![s[0]], t, keep);
        assert(seq![s[0]].filter(keep) == Seq::<char>::empty()) by {
            reveal_with_fuel(Seq::filter, 2);
        }
    } else {
        lemma_token_len(s);
        let n = token_len(s) as int;
        let head = s.take(n);
        let tail = s.skip(n);
        lemma_tokens_flatten(tail);
        assert(s == head + tail);
        Seq::filter_distributes_over_add(head, tail, keep);
        lemma_keeps_all(head, keep);
        vstd::seq_lib::lemma_flatten_concat(seq![head], tokens(tail));
        assert(seq![head].flatten() == head) by {
            seq![head].lemma_flatten_singleton();
        }
    }
}

/// A filter that every character of `s` passes leaves `s` as it is.
pub proof fn lemma_keeps_all(s: Seq<char>, keep: spec_fn(char) -> bool)
    requires
        forall|i: int| 0 <= i < s.len() ==> keep(#[trigger] s[i]),
    ensures
        s.filter(keep) == s,
    decreases s.len(),
{
    reveal(Seq::filter);
    if s.len() > 0 {
        lemma_keeps_all(s.drop_last(), keep);
    }
}

/// The piece with index `k` is what `s` holds from `bound(k)` up to
/// `bound(k + 1)`.
pub open spec fn piece_at(s: Seq<char>, pieces: Seq<Seq<char>>, bound: spec_fn(int) -> int, k: int)
    -> bool {
    0 <= bound(k) <= bound(k + 1) <= s.len() && pieces[k] == s.subrange(bound(k), bound(k + 1))
}

/// Pieces of `s` that follow one another without a gap, the first of them at
/// the start of `s`, make up a prefix of `s` when put together.
pub proof fn lemma_pieces_flatten(
    s: Seq<char>,
    pieces: Seq<Seq<char>>,
    bound: spec_fn(int) -> int,
    i: nat,
)
    requires
        i <= pieces.len(),
        bound(0) == 0,
        forall|k: int| 0 <= k < pieces.len() ==> #[trigger] piece_at(s, pieces, bound, k),
    ensures
        0 <= bound(i as int) <= s.len(),
        pieces.take(i as int).flatten() == s.take(bound(i as int)),
    decreases i,
{
    if i > 0 {
        lemma_pieces_flatten(s, pieces, bound, (i - 1) as nat);
        let before = pieces.take(i - 1);
        assert(piece_at(s, pieces, bound, i - 1));
        assert(pieces.take(i as int) == before.push(pieces[i - 1]));
        before.lemma_flatten_push(pieces[i - 1]);
    }
}

/// An even cut loses nothing: its chunks, one after the other, are the text.
pub proof fn lemma_even_chunks_flatten(s: Seq<char>, n: nat)
    requires
        n > 0,
    ensures
        even_chunks(s, n).len() == n,
        even_chunks(s, n).flatten() == s,
{
    let pieces = even_chunks(s, n);
    let bound = |k: int| chunk_start(s.len(), n, k as nat) as int;
    assert forall|k: int| 0 <= k < pieces.len() implies #[trigger] piece_at(
        s,
        pieces,
        bound,
        k,
    ) by {
        lemma_chunk_start(s.len(), n, k as nat);
    }
    lemma_chunk_start(s.len(), n, 0);
    lemma_pieces_flatten(s, pieces, bound, n);
    assert(pieces.take(n as int) == pieces);
}

/// A cut by length loses nothing: its chunks, one after the other, are the
/// text.
pub proof fn lemma_fixed_chunks_flatten(s: Seq<char>, size: nat)
    requires
        size > 0,
    ensures
        fixed_chunks(s, size).flatten() == s,
{
    let pieces = fixed_chunks(s, size);
    let len = s.len() as int;
    let bound = |k: int|
        if k * size <= len {
            k * size
        } else {
            len
        };
    assert forall|k: int| 0 <= k < pieces.len() implies #[trigger] piece_at(
        s,
        pieces,
        bound,
        k,
    ) by {
        lemma_chunk_count(s.len(), size, k as nat);
    }
    let count = pieces.len();
    lemma_pieces_flatten(s, pieces, bound, count);
    assert(pieces.take(count as int) == pieces);
    if count == 0 {
        assert(s.len() == 0) by (nonlinear_arith)
            requires
                size > 0,
                s.len() % size == 0,
                s.len() / size == 0,
        ;
    } else {
        lemma_chunk_count(s.len(), size, (count - 1) as nat);
    }
}

/// In an even cut the chunks are of near-equal size: each has the length of
/// the text divided by their number, or one character more, and none is
/// longer than one before it.
pub proof fn lemma_even_chunks_sizes(s: Seq<char>, n: nat, i: int)
    requires
        n > 0,
        0 <= i < n,
    ensures
        even_chunks(s, n)[i].len() == s.len() / n || even_chunks(s, n)[i].len() == s.len() / n + 1,
        i + 1 < n ==> even_chunks(s, n)[i + 1].len() <= even_chunks(s, n)[i].len(),
        s.len() % n == 0 ==> even_chunks(s, n)[i].len() == s.len() / n,
{
    lemma_chunk_start(s.len(), n, i as nat);
    if i + 1 < n {
        lemma_chunk_start(s.len(), n, (i + 1) as nat);
    }
}

/// In a cut by length every chunk but the last has that length, and the last
/// has at least one character and no more than that length.
pub proof fn lemma_fixed_chunks_sizes(s: Seq<char>, size: nat, k: int)
    requires
        size > 0,
        0 <= k < fixed_chunks(s, size).len(),
    ensures
        k + 1 < fixed_chunks(s, size).len() ==> fixed_chunks(s, size)[k].len() == size,
        0 < fixed_chunks(s, size)[k].len() <= size,
{
    lemma_chunk_count(s.len(), size, k as nat);
}

/// Whatever the policy, the segments together hold no more characters than
/// the input, and their digits are the digits of the input, in order.
pub proof fn lemma_segmented_partition(input: Seq<char>, policy: Policy, workers: nat)
    requires
        admits(input, policy, workers),
    ensures
        segmented(input, policy, workers).flatten().len() <= input.len(),
        digits_of(segmented(input, policy, workers).flatten()) == digits_of(input),
{
    match policy {
        Policy::Token => {
            lemma_tokens_flatten(input);
            input.lemma_filter_len(|c: char| !is_whitespace(c));
            lemma_keeping_digits(input, |c: char| !is_whitespace(c));
        },
        Policy::FixedCount => {
            lemma_even_chunks_flatten(digits_of(input), workers);
            input.lemma_filter_len(|c: char| is_digit(c));
            lemma_keeping_digits(input, |c: char| is_digit(c));
        },
        Policy::BoundaryPreserving => {
            let size = text_len(input) / workers;
            if size == 0 {
                seq![digits_of(input)].lemma_flatten_singleton();
            } else {
                lemma_fixed_chunks_flatten(digits_of(input), size);
            }
            input.lemma_filter_len(|c: char| is_digit(c));
            lemma_keeping_digits(input, |c: char| is_digit(c));
        },
    }
}

/// An input with a digit is cut into one segment at least, whatever the
/// policy.
pub proof fn lemma_has_segment(input: Seq<char>, policy: Policy, workers: nat)
    requires
        admits(input, policy, workers),
        has_digit(input),
    ensures
        segmented(input, policy, workers).len() > 0,
{
    let segs = segmented(input, policy, workers);
    lemma_segmented_partition(input, policy, workers);
    lemma_has_digit(input);
    lemma_has_digit(segs.flatten());
}

} // verus!
