//! The product of two numbers that are given as strings, with the failure to
//! read one of them handled in several ways.
use vstd::prelude::*;
use crate::samples::parse::{lemma_parsed_range, parse_i32, parsed, ParseError};

verus! {

/// The product of the numbers that `first` and `second` stand for, or the
/// reason why the first of them that stands for none does not.
pub open spec fn product(first: Seq<char>, second: Seq<char>) -> Result<int, ParseError> {
    match parsed(first) {
        Err(e) => Err(e),
        Ok(a) => match parsed(second) {
            Err(e) => Err(e),
            Ok(b) => Ok(a * b),
        },
    }
}

/// The product of `first` and `second`, where they are numbers, fits into 32
/// bits.
pub open spec fn product_fits(first: Seq<char>, second: Seq<char>) -> bool {
    product(first, second) matches Ok(p) ==> i32::MIN <= p <= i32::MAX
}

/// `r` is the product of `first` and `second`, or the reason why there is
/// none.
pub open spec fn is_product(r: Result<i32, ParseError>, first: Seq<char>, second: Seq<char>)
    -> bool {
    match r {
        Ok(p) => product(first, second) == Ok::<int, ParseError>(p as int),
        Err(e) => product(first, second) == Err::<int, ParseError>(e),
    }
}

/// Whether the product of `first` and `second`, where they are numbers, fits
/// into 32 bits.
pub fn fits(first_number_str: &str, second_number_str: &str) -> (b: bool)
    ensures
        b == product_fits(first_number_str@, second_number_str@),
{
    proof {
        lemma_parsed_range(first_number_str@);
        lemma_parsed_range(second_number_str@);
    }
    match parse_i32(first_number_str) {
        Err(_) => true,
        Ok(a) => match parse_i32(second_number_str) {
            Err(_) => true,
            Ok(b) => {
                assert(-4611686018427387904 <= a * b <= 4611686018427387904) by (nonlinear_arith)
                    requires
                        -2147483648 <= a <= 2147483647,
                        -2147483648 <= b <= 2147483647,
                ;
                let p: i64 = (a as i64) * (b as i64);
                -2147483648 <= p && p <= 2147483647
            },
        },
    }
}

/// The product of two strings that are known to be numbers.
pub fn multiply1(first_number_str: &str, second_number_str: &str) -> (p: i32)
    requires
        product(first_number_str@, second_number_str@) is Ok,
        product_fits(first_number_str@, second_number_str@),
    ensures
        product(first_number_str@, second_number_str@) == Ok::<int, ParseError>(p as int),
{
    let first_number = parse_i32(first_number_str).unwrap();
    let second_number = parse_i32(second_number_str).unwrap();
    first_number * second_number
}

/// The product, with each failure matched on.
pub fn multiply2(first_number_str: &str, second_number_str: &str) -> (r: Result<i32, ParseError>)
    requires
        product_fits(first_number_str@, second_number_str@),
    ensures
        is_product(r, first_number_str@, second_number_str@),
{
    match parse_i32(first_number_str) {
        Ok(first_number) => match parse_i32(second_number_str) {
            Ok(second_number) => Ok(first_number * second_number),
            Err(e) => Err(e),
        },
        Err(e) => Err(e),
    }
}

/// `first_number` times the number that `second_number_str` stands for.
pub fn scale(first_number: i32, second_number_str: &str) -> (r: Result<i32, ParseError>)
    requires
        parsed(second_number_str@) matches Ok(b) ==> i32::MIN <= first_number * b <= i32::MAX,
    ensures
        match r {
            Ok(p) => parsed(second_number_str@) matches Ok(b) && p == first_number * b,
            Err(e) => parsed(second_number_str@) == Err::<int, ParseError>(e),
        },
{
    match parse_i32(second_number_str) {
        Ok(second_number) => Ok(first_number * second_number),
        Err(e) => Err(e),
    }
}

/// The product, with the second number read only in case of the first.
pub fn multiply3(first_number_str: &str, second_number_str: &str) -> (r: Result<i32, ParseError>)
    requires
        product_fits(first_number_str@, second_number_str@),
    ensures
        is_product(r, first_number_str@, second_number_str@),
{
    match parse_i32(first_number_str) {
        Ok(first_number) => scale(first_number, second_number_str),
        Err(e) => Err(e),
    }
}

/// A result whose error is the failure to read a number.
pub type AliasedResult<T> = Result<T, ParseError>;

/// The product, under the shorter name of its type.
pub fn multiply4(first_number_str: &str, second_number_str: &str) -> (r: AliasedResult<i32>)
    requires
        product_fits(first_number_str@, second_number_str@),
    ensures
        is_product(r, first_number_str@, second_number_str@),
{
    match parse_i32(first_number_str) {
        Ok(first_number) => scale(first_number, second_number_str),
        Err(e) => Err(e),
    }
}

/// The product, with an early return on each failure.
pub fn multiply5(first_number_str: &str, second_number_str: &str) -> (r: Result<i32, ParseError>)
    requires
        product_fits(first_number_str@, second_number_str@),
    ensures
        is_product(r, first_number_str@, second_number_str@),
{
    let first_number = match parse_i32(first_number_str) {
        Ok(first_number) => first_number,
        Err(e) => return Err(e),
    };
    let second_number = match parse_i32(second_number_str) {
        Ok(second_number) => second_number,
        Err(e) => return Err(e),
    };
    Ok(first_number * second_number)
}

/// The product, with `?` on each failure.
pub fn multiply6(first_number_str: &str, second_number_str: &str) -> (r: Result<i32, ParseError>)
    requires
        product_fits(first_number_str@, second_number_str@),
    ensures
        is_product(r, first_number_str@, second_number_str@),
{
    let first_number = parse_i32(first_number_str)?;
    let second_number = parse_i32(second_number_str)?;
    Ok(first_number * second_number)
}

/// The product does not depend on which of the two numbers comes first,
/// where both are numbers.
pub proof fn lemma_product_commutes(first: Seq<char>, second: Seq<char>)
    requires
        parsed(first) is Ok,
        parsed(second) is Ok,
    ensures
        product(first, second) == product(second, first),
{
    let a = parsed(first)->Ok_0;
    let b = parsed(second)->Ok_0;
    assert(a * b == b * a) by (nonlinear_arith);
}

} // verus!
