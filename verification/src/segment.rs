//! The segmenter: three ways to cut the raw input into segments.
use vstd::prelude::*;
use crate::error::PipelineError;
use crate::text::{is_digit, is_whitespace, has_digit, digits_of, text_len, is_separator, to_digit,
    chars_of, string_of, byte_len};

verus! {

/// The number of workers where nothing else is asked for.
pub const DEFAULT_WORKERS: usize = 10;

/// One piece of the input, to be summed by one worker.
#[derive(Clone, Debug, PartialEq, Eq)]
pub struct Segment {
    /// Its place among the segments of one input, counted from zero.
    pub index: usize,
    /// Its characters.
    pub text: String,
}

/// The texts of `segs`, in order.
pub open spec fn texts(segs: Seq<Segment>) -> Seq<Seq<char>> {
    segs.map_values(|s: Segment| s.text@)
}

/// Each segment of `segs` carries its own position as its index.
pub open spec fn in_order(segs: Seq<Segment>) -> bool {
    forall|i: int| 0 <= i < segs.len() ==> (#[trigger] segs[i]).index == i
}

/// The length of the longest prefix of `s` that holds no whitespace.
pub open spec fn token_len(s: Seq<char>) -> nat
    decreases s.len(),
{
    if s.len() == 0 || is_whitespace(s[0]) {
        0
    } else {
        1 + token_len(s.drop_first())
    }
}

/// The tokens of `s`: its maximal runs of characters that are no whitespace,
/// from left to right.
pub open spec fn tokens(s: Seq<char>) -> Seq<Seq<char>>
    decreases s.len(),
{
    if s.len() == 0 {
        Seq::empty()
    } else if is_whitespace(s[0]) {
        tokens(s.drop_first())
    } else {
        proof {
            lemma_token_len(s);
        }
        let n = token_len(s) as int;
        seq![s.take(n)] + tokens(s.skip(n))
    }
}

/// The longest prefix without whitespace lies within `s`, holds no
/// whitespace, and ends where `s` ends or whitespace begins; it is not empty
/// where `s` starts with a character that is no whitespace.
pub proof fn lemma_token_len(s: Seq<char>)
    ensures
        token_len(s) <= s.len(),
        forall|i: int| 0 <= i < token_len(s) ==> !is_whitespace(#[trigger] s[i]),
        token_len(s) < s.len() ==> is_whitespace(s[token_len(s) as int]),
        s.len() > 0 && !is_whitespace(s[0]) ==> token_len(s) > 0,
    decreases s.len(),
{
    if s.len() > 0 && !is_whitespace(s[0]) {
        let t = s.drop_first();
        lemma_token_len(t);
        assert forall|i: int| 0 <= i < token_len(s) implies !is_whitespace(#[trigger] s[i]) by {
            if i > 0 {
                assert(s[i] == t[i - 1]);
            }
        }
    }
}

/// A run of `n` characters without whitespace that ends where `s` ends or
/// whitespace begins is the longest such prefix.
pub proof fn lemma_token_len_is(s: Seq<char>, n: nat)
    requires
        n <= s.len(),
        forall|i: int| 0 <= i < n ==> !is_whitespace(#[trigger] s[i]),
        n == s.len() || is_whitespace(s[n as int]),
    ensures
        token_len(s) == n,
    decreases n,
{
    if n > 0 {
        let t = s.drop_first();
        lemma_token_len_is(t, (n - 1) as nat);
    }
}

/// Whether some character of `chars` is a decimal digit.
pub fn contains_digit(chars: &Vec<char>) -> (b: bool)
    ensures
        b == has_digit(chars@),
{
    let mut i: usize = 0;
    while i < chars.len()
        invariant
            i <= chars.len(),
            forall|j: int| 0 <= j < i ==> !is_digit(#[trigger] chars@[j]),
        decreases chars.len() - i,
    {
        if to_digit(chars[i]).is_some() {
            return true;
        }
        i += 1;
    }
    false
}

/// The token policy: each maximal run of characters that are no whitespace
/// becomes one segment. Fails where the input holds no decimal digit.
pub fn split_tokens(input: &str) -> (r: Result<Vec<Segment>, PipelineError>)
    ensures
        match r {
            Ok(segs) => has_digit(input@) && texts(segs@) == tokens(input@) && in_order(segs@),
            Err(e) => !has_digit(input@) && e == PipelineError::InvalidInput,
        },
{
    let chars = chars_of(input);
    if !contains_digit(&chars) {
        return Err(PipelineError::InvalidInput);
    }
    let mut segs: Vec<Segment> = Vec::new();
    let mut i: usize = 0;
    proof {
        assert(chars@.skip(0) == chars@);
    }
    while i < chars.len()
        invariant
            i <= chars.len(),
            chars@ == input@,
            in_order(segs@),
            tokens(chars@) == texts(segs@) + tokens(chars@.skip(i as int)),
        decreases chars.len() - i,
    {
        let ghost rest = chars@.skip(i as int);
        if is_separator(chars[i]) {
            proof {
                assert(rest.drop_first() == chars@.skip(i + 1));
            }
            i += 1;
        } else {
            let start = i;
            while i < chars.len() && !is_separator(chars[i])
                invariant
                    start <= i <= chars.len(),
                    forall|j: int| start <= j < i ==> !is_whitespace(#[trigger] chars@[j]),
                decreases chars.len() - i,
            {
                i += 1;
            }
            let text = string_of(&chars, start, i);
            proof {
                lemma_token_len_is(rest, (i - start) as nat);
                assert(rest.take(i - start) == chars@.subrange(start as int, i as int));
                assert(rest.skip(i - start) == chars@.skip(i as int));
            }
            segs.push(Segment { index: segs.len(), text });
        }
    }
    Ok(segs)
}

/// Where the chunk with index `i` starts when `len` characters are cut into
/// `n` chunks of near-equal size: each chunk has `len / n` characters, and each
/// of the first `len % n` chunks has one more.
pub open spec fn chunk_start(len: nat, n: nat, i: nat) -> nat {
    i * (len / n) + if i < len % n {
        i
    } else {
        len % n
    }
}

/// `s` cut into exactly `n` chunks of near-equal size, the longer ones first.
pub open spec fn even_chunks(s: Seq<char>, n: nat) -> Seq<Seq<char>> {
    Seq::new(
        n,
        |i: int|
            s.subrange(
                chunk_start(s.len(), n, i as nat) as int,
                chunk_start(s.len(), n, (i + 1) as nat) as int,
            ),
    )
}

/// How many chunks of `size` characters it takes to hold `len` characters, the
/// last chunk being shorter where `size` does not divide `len`.
pub open spec fn chunk_count(len: nat, size: nat) -> nat {
    if len % size == 0 {
        len / size
    } else {
        len / size + 1
    }
}

/// `s` cut after every `size` characters. The last chunk is shorter where
/// `size` does not divide the length of `s`.
pub open spec fn fixed_chunks(s: Seq<char>, size: nat) -> Seq<Seq<char>> {
    Seq::new(
        chunk_count(s.len(), size),
        |k: int|
            s.subrange(
                k * size,
                if (k + 1) * size <= s.len() {
                    (k + 1) * size
                } else {
                    s.len() as int
                },
            ),
    )
}

/// The chunks of an even cut follow one another without a gap: the first
/// starts at 0, each one ends where the next starts, and the last one ends
/// with the text. Each one has `len / n` characters, or one more.
pub proof fn lemma_chunk_start(len: nat, n: nat, i: nat)
    requires
        n > 0,
        i < n,
    ensures
        chunk_start(len, n, 0) == 0,
        chunk_start(len, n, n) == len,
        chunk_start(len, n, i + 1) == chunk_start(len, n, i) + len / n + if i < len % n {
            1nat
        } else {
            0nat
        },
        chunk_start(len, n, i + 1) <= len,
{
    let q = len / n;
    let r = len % n;
    assert(len == n * q + r && 0 <= r < n) by (nonlinear_arith)
        requires
            n > 0,
            q == len / n,
            r == len % n,
    ;
    assert((i + 1) * q == i * q + q) by (nonlinear_arith);
    assert((i + 1) * q <= n * q) by (nonlinear_arith)
        requires
            i + 1 <= n,
            q >= 0,
    ;
}

/// The chunks of a cut by length follow one another without a gap: each one
/// but the last is full, and the last one is not empty.
pub proof fn lemma_chunk_count(len: nat, size: nat, k: nat)
    requires
        size > 0,
        k < chunk_count(len, size),
    ensures
        k * size < len,
        k + 1 < chunk_count(len, size) ==> (k + 1) * size < len,
        k + 1 == chunk_count(len, size) ==> (k + 1) * size >= len,
        (k + 1) * size == k * size + size,
{
    let q = len / size;
    let r = len % size;
    assert(len == size * q + r && 0 <= r < size) by (nonlinear_arith)
        requires
            size > 0,
            q == len / size,
            r == len % size,
    ;
    assert((k + 1) * size == k * size + size) by (nonlinear_arith);
    if r == 0 {
        assert((k + 1) * size <= q * size) by (nonlinear_arith)
            requires
                k + 1 <= q,
                size > 0,
        ;
        if k + 1 < q {
            assert((k + 2) * size <= q * size) by (nonlinear_arith)
                requires
                    k + 2 <= q,
                    size > 0,
            ;
            assert((k + 2) * size == (k + 1) * size + size) by (nonlinear_arith);
        }
        assert(q * size == size * q) by (nonlinear_arith);
    } else {
        assert(k * size <= q * size) by (nonlinear_arith)
            requires
                k <= q,
                size > 0,
        ;
        assert(q * size == size * q) by (nonlinear_arith);
        if k + 1 < q + 1 {
            assert((k + 1) * size <= q * size) by (nonlinear_arith)
                requires
                    k + 1 <= q,
                    size > 0,
            ;
        } else {
            assert((k + 1) * size == q * size + size) by (nonlinear_arith)
                requires
                    k == q,
            ;
        }
    }
}

/// The text has a digit exactly where the sequence of its digits is not
/// empty.
pub proof fn lemma_has_digit(s: Seq<char>)
    ensures
        has_digit(s) <==> digits_of(s).len() > 0,
    decreases s.len(),
{
    reveal(Seq::filter);
    if s.len() > 0 {
        lemma_has_digit(s.drop_last());
        if has_digit(s) {
            let i = choose|i: int| 0 <= i < s.len() && is_digit(#[trigger] s[i]);
            if i < s.len() - 1 {
                assert(s.drop_last()[i] == s[i]);
            }
        }
    }
}

/// The decimal digits of `chars`, in order.
pub fn keep_digits(chars: &Vec<char>) -> (out: Vec<char>)
    ensures
        out@ == digits_of(chars@),
{
    let mut out: Vec<char> = Vec::new();
    let mut i: usize = 0;
    proof {
        reveal(Seq::filter);
    }
    while i < chars.len()
        invariant
            i <= chars.len(),
            out@ == digits_of(chars@.take(i as int)),
        decreases chars.len() - i,
    {
        proof {
            assert(chars@.take(i + 1) == chars@.take(i as int).push(chars@[i as int]));
            chars@.take(i as int).lemma_filter_push(chars@[i as int], |c: char| is_digit(c));
        }
        if to_digit(chars[i]).is_some() {
            out.push(chars[i]);
        }
        i += 1;
    }
    proof {
        assert(chars@.take(i as int) == chars@);
    }
    out
}

/// The fixed-count policy: the decimal digits of the input, cut into exactly
/// `workers` chunks of near-equal size. Fails where the input holds no decimal
/// digit.
pub fn split_fixed_count(input: &str, workers: usize) -> (r: Result<Vec<Segment>, PipelineError>)
    requires
        workers > 0,
    ensures
        match r {
            Ok(segs) => has_digit(input@) && texts(segs@) == even_chunks(
                digits_of(input@),
                workers as nat,
            ) && in_order(segs@),
            Err(e) => !has_digit(input@) && e == PipelineError::InvalidInput,
        },
{
    let chars = chars_of(input);
    let digits = keep_digits(&chars);
    proof {
        lemma_has_digit(input@);
    }
    if digits.len() == 0 {
        return Err(PipelineError::InvalidInput);
    }
    let short: usize = digits.len() / workers;
    let longer: usize = digits.len() % workers;
    let mut segs: Vec<Segment> = Vec::new();
    let mut start: usize = 0;
    let mut i: usize = 0;
    proof {
        lemma_chunk_start(digits@.len(), workers as nat, 0);
    }
    while i < workers
        invariant
            workers > 0,
            i <= workers,
            short == digits@.len() / (workers as nat),
            longer == digits@.len() % (workers as nat),
            start == chunk_start(digits@.len(), workers as nat, i as nat),
            start <= digits.len(),
            segs.len() == i,
            in_order(segs@),
            texts(segs@) == even_chunks(digits@, workers as nat).take(i as int),
        decreases workers - i,
    {
        proof {
            lemma_chunk_start(digits@.len(), workers as nat, i as nat);
        }
        let end: usize = if i < longer {
            start + short + 1
        } else {
            start + short
        };
        let text = string_of(&digits, start, end);
        segs.push(Segment { index: i, text });
        start = end;
        i += 1;
    }
    Ok(segs)
}

/// The boundary-preserving policy: the decimal digits of the input, with a
/// boundary after every `segment_length` of them, where `segment_length` is the
/// length of the input divided by `workers`. Fails where the input holds no
/// decimal digit.
///
/// A segment length of zero sets no boundary. It is admitted only where there
/// is no place for one: where the input holds one digit at most.
pub fn split_fixed_length(input: &str, workers: usize) -> (r: Result<Vec<Segment>, PipelineError>)
    requires
        workers > 0,
        workers <= text_len(input@) || digits_of(input@).len() <= 1,
    ensures
        match r {
            Ok(segs) => has_digit(input@) && in_order(segs@) && texts(segs@) == (if text_len(
                input@,
            ) / (workers as nat) == 0 {
                seq![digits_of(input@)]
            } else {
                fixed_chunks(digits_of(input@), text_len(input@) / (workers as nat))
            }),
            Err(e) => !has_digit(input@) && e == PipelineError::InvalidInput,
        },
{
    let chars = chars_of(input);
    let digits = keep_digits(&chars);
    proof {
        lemma_has_digit(input@);
    }
    if digits.len() == 0 {
        return Err(PipelineError::InvalidInput);
    }
    let size: usize = byte_len(input) / workers;
    if size == 0 {
        let text = string_of(&digits, 0, digits.len());
        let mut only: Vec<Segment> = Vec::new();
        only.push(Segment { index: 0, text });
        proof {
            assert(digits@.subrange(0, digits@.len() as int) == digits@);
            assert(texts(only@) == seq![digits@]);
        }
        return Ok(only);
    }
    let count: usize = if digits.len() % size == 0 {
        digits.len() / size
    } else {
        assert(digits.len() / size < digits.len()) by (nonlinear_arith)
            requires
                size > 0,
                digits.len() % size != 0,
        ;
        digits.len() / size + 1
    };
    let mut segs: Vec<Segment> = Vec::new();
    let mut start: usize = 0;
    let mut k: usize = 0;
    while k < count
        invariant
            size > 0,
            k <= count,
            count == chunk_count(digits@.len(), size as nat),
            start == if k * size <= digits.len() {
                k * size
            } else {
                digits.len() as int
            },
            segs.len() == k,
            in_order(segs@),
            texts(segs@) == fixed_chunks(digits@, size as nat).take(k as int),
        decreases count - k,
    {
        proof {
            lemma_chunk_count(digits@.len(), size as nat, k as nat);
        }
        let end: usize = if digits.len() - start <= size {
            digits.len()
        } else {
            start + size
        };
        let text = string_of(&digits, start, end);
        segs.push(Segment { index: k, text });
        start = end;
        k += 1;
    }
    Ok(segs)
}

/// The way in which the input is cut into segments.
#[derive(Clone, Copy, Debug, PartialEq, Eq, Structural)]
pub enum Policy {
    /// One segment for each run of characters between whitespace.
    Token,
    /// The digits of the input in as many segments as there are workers.
    FixedCount,
    /// The digits of the input in segments of one length, which is the length
    /// of the input divided by the number of workers.
    BoundaryPreserving,
}

/// The policy can be applied to `input` with `workers` workers: there is a
/// worker where the policy counts them, and the segment length that it
/// computes is not zero where the input holds two digits or more.
pub open spec fn admits(input: Seq<char>, policy: Policy, workers: nat) -> bool {
    match policy {
        Policy::Token => true,
        Policy::FixedCount => workers > 0,
        Policy::BoundaryPreserving => workers > 0 && (workers <= text_len(input) || digits_of(
            input,
        ).len() <= 1),
    }
}

/// The texts of the segments into which `policy` cuts `input`.
pub open spec fn segmented(input: Seq<char>, policy: Policy, workers: nat) -> Seq<Seq<char>> {
    match policy {
        Policy::Token => tokens(input),
        Policy::FixedCount => even_chunks(digits_of(input), workers),
        Policy::BoundaryPreserving => if text_len(input) / workers == 0 {
            seq![digits_of(input)]
        } else {
            fixed_chunks(digits_of(input), text_len(input) / workers)
        },
    }
}

/// Whether `policy` can be applied to `input` with `workers` workers.
pub fn is_admitted(input: &str, policy: Policy, workers: usize) -> (b: bool)
    ensures
        b == admits(input@, policy, workers as nat),
{
    match policy {
        Policy::Token => true,
        Policy::FixedCount => workers > 0,
        Policy::BoundaryPreserving => {
            if workers == 0 {
                false
            } else if workers <= byte_len(input) {
                true
            } else {
                let chars = chars_of(input);
                keep_digits(&chars).len() <= 1
            }
        },
    }
}

/// Cuts `input` into segments as `policy` says. Fails where the input holds
/// no decimal digit.
pub fn segment(input: &str, policy: Policy, workers: usize) -> (r: Result<
    Vec<Segment>,
    PipelineError,
>)
    requires
        admits(input@, policy, workers as nat),
    ensures
        match r {
            Ok(segs) => has_digit(input@) && texts(segs@) == segmented(
                input@,
                policy,
                workers as nat,
            ) && in_order(segs@),
            Err(e) => !has_digit(input@) && e == PipelineError::InvalidInput,
        },
{
    match policy {
        Policy::Token => split_tokens(input),
        Policy::FixedCount => split_fixed_count(input, workers),
        Policy::BoundaryPreserving => split_fixed_length(input, workers),
    }
}

} // verus!
