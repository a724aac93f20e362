//! Reading a decimal number out of a string.
use vstd::prelude::*;
use vstd::string::StringExecFns;
use crate::text::{chars_of, digit_value, is_digit, to_digit};

verus! {

/// Why a string is no 32-bit number.
#[derive(Clone, Copy, Debug, PartialEq, Eq, Structural)]
pub enum ParseError {
    /// The string is empty.
    Empty,
    /// The string holds a character that is no decimal digit where one is
    /// expected, or a sign and nothing after it.
    InvalidDigit,
    /// The number is too large.
    PosOverflow,
    /// The number is too small.
    NegOverflow,
}

impl ParseError {
    /// What went wrong, in words.
    pub fn message(&self) -> (text: String)
        ensures
            text@ == match *self {
                ParseError::Empty => "cannot parse integer from empty string"@,
                ParseError::InvalidDigit => "invalid digit found in string"@,
                ParseError::PosOverflow => "number too large to fit in target type"@,
                ParseError::NegOverflow => "number too small to fit in target type"@,
            },
    {
        match *self {
            ParseError::Empty => String::from_str("cannot parse integer from empty string"),
            ParseError::InvalidDigit => String::from_str("invalid digit found in string"),
            ParseError::PosOverflow => String::from_str("number too large to fit in target type"),
            ParseError::NegOverflow => String::from_str("number too small to fit in target type"),
        }
    }
}

/// What the digits `body` come to when read from left to right, each digit
/// added to ten times what came before it, or taken from it where the number
/// is negative. Reading stops at the first character that is no digit, and at
/// the first digit with which the number leaves the 32-bit range.
pub open spec fn accumulate(negative: bool, body: Seq<char>) -> Result<int, ParseError>
    decreases body.len(),
{
    if body.len() == 0 {
        Ok(0)
    } else {
        match accumulate(negative, body.drop_last()) {
            Err(e) => Err(e),
            Ok(before) => {
                let value = if negative {
                    before * 10 - digit_value(body.last())
                } else {
                    before * 10 + digit_value(body.last())
                };
                if !is_digit(body.last()) {
                    Err(ParseError::InvalidDigit)
                } else if value > i32::MAX {
                    Err(ParseError::PosOverflow)
                } else if value < i32::MIN {
                    Err(ParseError::NegOverflow)
                } else {
                    Ok(value)
                }
            },
        }
    }
}

/// The number that `s` stands for: an optional `+` or `-`, then one decimal
/// digit or more, and nothing else.
pub open spec fn parsed(s: Seq<char>) -> Result<int, ParseError> {
    if s.len() == 0 {
        Err(ParseError::Empty)
    } else if s[0] == '+' || s[0] == '-' {
        if s.len() == 1 {
            Err(ParseError::InvalidDigit)
        } else {
            accumulate(s[0] == '-', s.skip(1))
        }
    } else {
        accumulate(false, s)
    }
}

/// A number that was read lies in the 32-bit range.
pub proof fn lemma_accumulate_range(negative: bool, body: Seq<char>)
    ensures
        accumulate(negative, body) matches Ok(v) ==> i32::MIN <= v <= i32::MAX,
        accumulate(negative, body) matches Ok(v) ==> (negative ==> v <= 0) && (!negative ==> v
            >= 0),
    decreases body.len(),
{
    if body.len() > 0 {
        lemma_accumulate_range(negative, body.drop_last());
    }
}

/// A number that was read lies in the 32-bit range.
pub proof fn lemma_parsed_range(s: Seq<char>)
    ensures
        parsed(s) matches Ok(v) ==> i32::MIN <= v <= i32::MAX,
{
    if s.len() > 0 {
        lemma_accumulate_range(false, s);
        lemma_accumulate_range(s[0] == '-', s.skip(1));
    }
}

/// Reads a 32-bit number out of `s`.
pub fn parse_i32(s: &str) -> (r: Result<i32, ParseError>)
    ensures
        match r {
            Ok(v) => parsed(s@) == Ok::<int, ParseError>(v as int),
            Err(e) => parsed(s@) == Err::<int, ParseError>(e),
        },
{
    let chars = chars_of(s);
    if chars.len() == 0 {
        return Err(ParseError::Empty);
    }
    let negative = chars[0] == '-';
    let start: usize = if chars[0] == '+' || chars[0] == '-' {
        1
    } else {
        0
    };
    if start == chars.len() {
        return Err(ParseError::InvalidDigit);
    }
    let ghost body = chars@.skip(start as int);
    let mut value: i64 = 0;
    let mut i: usize = start;
    proof {
        if start == 0 {
            assert(body == chars@);
        }
    }
    while i < chars.len()
        invariant
            start <= i <= chars.len(),
            body == chars@.skip(start as int),
            parsed(s@) == accumulate(negative, body),
            accumulate(negative, body.take(i - start)) == Ok::<int, ParseError>(value as int),
            i32::MIN <= value <= i32::MAX,
        decreases chars.len() - i,
    {
        proof {
            assert(body.take(i + 1 - start).drop_last() == body.take(i - start));
            lemma_accumulate_stays(negative, body, i + 1 - start);
        }
        let digit: i64 = match to_digit(chars[i]) {
            Some(d) => d as i64,
            None => {
                return Err(ParseError::InvalidDigit);
            },
        };
        let next: i64 = if negative {
            value * 10 - digit
        } else {
            value * 10 + digit
        };
        if next > 2147483647 {
            return Err(ParseError::PosOverflow);
        }
        if next < -2147483648 {
            return Err(ParseError::NegOverflow);
        }
        value = next;
        i += 1;
    }
    proof {
        assert(body.take(i - start) == body);
    }
    Ok(value as i32)
}

/// Once reading has failed on a prefix, it has failed for good, and with the
/// same error.
pub proof fn lemma_accumulate_stays(negative: bool, body: Seq<char>, n: int)
    requires
        0 <= n <= body.len(),
    ensures
        accumulate(negative, body.take(n)) matches Err(e) ==> accumulate(negative, body) == Err::<
            int,
            ParseError,
        >(e),
    decreases body.len() - n,
{
    if n < body.len() {
        lemma_accumulate_stays(negative, body, n + 1);
        assert(body.take(n + 1).drop_last() == body.take(n));
    } else {
        assert(body.take(n) == body);
    }
}

} // verus!
