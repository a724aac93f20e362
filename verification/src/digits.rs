//! The digit extractor: the sum of the decimal digits of a piece of text.
use vstd::prelude::*;
use crate::scan::{first_where, lemma_first_where_is};
use crate::text::{is_digit, digit_value, all_digits, digits_of, to_digit, byte_len};

verus! {

/// The sum of the values of the decimal digits in `s`. Characters that are no
/// digits add nothing.
pub open spec fn digit_total(s: Seq<char>) -> nat
    decreases s.len(),
{
    if s.len() == 0 {
        0
    } else {
        digit_total(s.drop_last()) + digit_value(s.last())
    }
}

/// The position of the first character of `s` that is no decimal digit, or
/// the length of `s` where every character is one.
pub open spec fn first_non_digit(s: Seq<char>) -> nat {
    first_where(s, |c: char| !is_digit(c))
}

/// A character that is no decimal digit, and where it stands in the text that
/// was to be summed.
#[derive(Clone, Copy, Debug, PartialEq, Eq, Structural)]
pub struct InvalidDigit {
    /// How many characters of the text come before it.
    pub position: usize,
    /// The character itself.
    pub found: char,
}

/// The first character of `s` that is no decimal digit, where there is one.
pub open spec fn first_invalid(s: Seq<char>) -> InvalidDigit {
    InvalidDigit { position: first_non_digit(s) as usize, found: s[first_non_digit(s) as int] }
}

/// No digit is worth more than nine, so no text sums to more than nine times
/// its length.
pub proof fn lemma_digit_total_bound(s: Seq<char>)
    ensures
        digit_total(s) <= 9 * s.len(),
    decreases s.len(),
{
    if s.len() > 0 {
        lemma_digit_total_bound(s.drop_last());
    }
}

/// The sum of the digits of two texts, one after the other, is the sum of the
/// two sums.
pub proof fn lemma_digit_total_concat(a: Seq<char>, b: Seq<char>)
    ensures
        digit_total(a + b) == digit_total(a) + digit_total(b),
    decreases b.len(),
{
    if b.len() > 0 {
        assert((a + b).drop_last() == a + b.drop_last());
        lemma_digit_total_concat(a, b.drop_last());
    }
}

/// Leaving characters out of a text changes neither its digits nor their sum,
/// as long as every digit is kept.
pub proof fn lemma_keeping_digits(s: Seq<char>, keep: spec_fn(char) -> bool)
    requires
        forall|c: char| is_digit(c) ==> #[trigger] keep(c),
    ensures
        digits_of(s.filter(keep)) == digits_of(s),
        digit_total(s.filter(keep)) == digit_total(s),
    decreases s.len(),
{
    reveal(Seq::filter);
    if s.len() > 0 {
        let t = s.drop_last();
        lemma_keeping_digits(t, keep);
        if keep(s.last()) {
            t.filter(keep).lemma_filter_push(s.last(), |c: char| is_digit(c));
            assert(t.filter(keep).push(s.last()).drop_last() == t.filter(keep));
        }
    }
}

/// The sum of the digits of a text is the sum of its digits alone.
pub proof fn lemma_digit_total_of_digits(s: Seq<char>)
    ensures
        digit_total(digits_of(s)) == digit_total(s),
        all_digits(digits_of(s)),
{
    lemma_keeping_digits(s, |c: char| is_digit(c));
    assert forall|i: int| 0 <= i < digits_of(s).len() implies is_digit(
        #[trigger] digits_of(s)[i],
    ) by {
        s.lemma_filter_pred(|c: char| is_digit(c), i);
    }
}

/// Sums the decimal digits of `text`. Fails on the first character that is no
/// decimal digit, and says which one it is and where it stands.
pub fn digit_sum(text: &str) -> (r: Result<u128, InvalidDigit>)
    ensures
        match r {
            Ok(total) => all_digits(text@) && total == digit_total(text@),
            Err(e) => !all_digits(text@) && e == first_invalid(text@),
        },
{
    let bytes: usize = byte_len(text);
    let mut total: u128 = 0;
    let mut position: usize = 0;
    for c in it: text.chars()
        invariant
            text@.len() <= bytes,
            it.seq() == text@,
            position == it.index(),
            all_digits(text@.take(position as int)),
            total == digit_total(text@.take(position as int)),
    {
        proof {
            lemma_digit_total_bound(text@.take(position as int));
            assert(text@.take(position + 1).drop_last() == text@.take(position as int));
        }
        match to_digit(c) {
            Some(d) => {
                total = total + d as u128;
                position = position + 1;
            },
            None => {
                proof {
                    assert forall|i: int| 0 <= i < position implies is_digit(
                        #[trigger] text@[i],
                    ) by {
                        assert(text@[i] == text@.take(position as int)[i]);
                    }
                    lemma_first_where_is(text@, |c: char| !is_digit(c), position as nat);
                }
                return Err(InvalidDigit { position, found: c });
            },
        }
    }
    proof {
        assert(text@.take(position as int) == text@);
    }
    Ok(total)
}

} // verus!
