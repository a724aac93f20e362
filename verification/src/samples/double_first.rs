//! Twice the first number of a list of strings, with the two ways in which
//! there may be none (an empty list, a first item that is no number) told in
//! several ways.
use vstd::prelude::*;
use vstd::string::StringExecFns;
use crate::samples::parse::{lemma_parsed_range, parse_i32, parsed, ParseError};

verus! {

/// The first item of `items`, as characters.
pub open spec fn first_of(items: Seq<&str>) -> Option<Seq<char>> {
    if items.len() == 0 {
        None
    } else {
        Some(items[0]@)
    }
}

/// Twice the first number: nothing for an empty list, and else twice the
/// number that the first item stands for, or the reason why it stands for
/// none.
pub open spec fn doubled(items: Seq<&str>) -> Option<Result<int, ParseError>> {
    match first_of(items) {
        None => None,
        Some(first) => Some(
            match parsed(first) {
                Ok(n) => Ok(2 * n),
                Err(e) => Err(e),
            },
        ),
    }
}

/// Twice the first number, where there is one, fits into 32 bits.
pub open spec fn double_fits(items: Seq<&str>) -> bool {
    doubled(items) matches Some(Ok(d)) ==> i32::MIN <= d <= i32::MAX
}

/// Whether twice the first number, where there is one, fits into 32 bits.
pub fn fits(vec: &Vec<&str>) -> (b: bool)
    ensures
        b == double_fits(vec@),
{
    if vec.len() == 0 {
        return true;
    }
    proof {
        lemma_parsed_range(vec@[0]@);
    }
    match parse_i32(vec[0]) {
        Ok(n) => -1073741824 <= n && n <= 1073741823,
        Err(_) => true,
    }
}

/// Twice the first number of a list that is known to start with one.
pub fn double_first1(vec: Vec<&str>) -> (d: i32)
    requires
        doubled(vec@) matches Some(Ok(_)),
        double_fits(vec@),
    ensures
        doubled(vec@) == Some(Ok::<int, ParseError>(d as int)),
{
    let first = vec.as_slice().first().unwrap();
    2 * parse_i32(first).unwrap()
}

/// Twice the first number, the empty list told by `None`.
pub fn double_first2(vec: Vec<&str>) -> (r: Option<Result<i32, ParseError>>)
    requires
        double_fits(vec@),
    ensures
        match r {
            None => doubled(vec@) is None,
            Some(Ok(d)) => doubled(vec@) == Some(Ok::<int, ParseError>(d as int)),
            Some(Err(e)) => doubled(vec@) == Some(Err::<int, ParseError>(e)),
        },
{
    match vec.as_slice().first() {
        None => None,
        Some(first) => Some(
            match parse_i32(first) {
                Ok(n) => Ok(2 * n),
                Err(e) => Err(e),
            },
        ),
    }
}

/// Twice the first number, the empty list told by `Ok(None)`.
pub fn double_first3(vec: Vec<&str>) -> (r: Result<Option<i32>, ParseError>)
    requires
        double_fits(vec@),
    ensures
        match r {
            Ok(None) => doubled(vec@) is None,
            Ok(Some(d)) => doubled(vec@) == Some(Ok::<int, ParseError>(d as int)),
            Err(e) => doubled(vec@) == Some(Err::<int, ParseError>(e)),
        },
{
    match double_first2(vec) {
        None => Ok(None),
        Some(Ok(d)) => Ok(Some(d)),
        Some(Err(e)) => Err(e),
    }
}

/// There is no first number to double: the list is empty, or its first item
/// is no number.
#[derive(Clone, Copy, Debug, PartialEq, Eq, Structural)]
pub struct DoubleError4;

impl DoubleError4 {
    /// What went wrong, in words.
    pub fn message(&self) -> (text: String)
        ensures
            text@ == "invalid first item to double"@,
    {
        String::from_str("invalid first item to double")
    }
}

/// Twice the first number, with one error for both failures.
pub fn double_first4(vec: Vec<&str>) -> (r: Result<i32, DoubleError4>)
    requires
        double_fits(vec@),
    ensures
        match r {
            Ok(d) => doubled(vec@) == Some(Ok::<int, ParseError>(d as int)),
            Err(_) => !(doubled(vec@) matches Some(Ok(_))),
        },
{
    match double_first2(vec) {
        Some(Ok(d)) => Ok(d),
        _ => Err(DoubleError4),
    }
}

/// The list is empty.
#[derive(Clone, Copy, Debug, PartialEq, Eq, Structural)]
pub struct EmptyVec5;

impl EmptyVec5 {
    /// What went wrong, in words.
    pub fn message(&self) -> (text: String)
        ensures
            text@ == "invalid first item to double"@,
    {
        String::from_str("invalid first item to double")
    }
}

/// The list is empty.
#[derive(Clone, Copy, Debug, PartialEq, Eq, Structural)]
pub struct EmptyVec6;

impl EmptyVec6 {
    /// What went wrong, in words.
    pub fn message(&self) -> (text: String)
        ensures
            text@ == "invalid first item to double"@,
    {
        String::from_str("invalid first item to double")
    }
}

/// Any of the errors that the functions below hand on as they are.
#[derive(Clone, Copy, Debug, PartialEq, Eq, Structural)]
pub enum AnyError {
    Empty5(EmptyVec5),
    Empty6(EmptyVec6),
    Parse(ParseError),
}

/// Twice the first number, with each failure handed on as it is.
pub fn double_first5(vec: Vec<&str>) -> (r: Result<i32, AnyError>)
    requires
        double_fits(vec@),
    ensures
        match r {
            Ok(d) => doubled(vec@) == Some(Ok::<int, ParseError>(d as int)),
            Err(AnyError::Parse(e)) => doubled(vec@) == Some(Err::<int, ParseError>(e)),
            Err(other) => doubled(vec@) is None && other == AnyError::Empty5(EmptyVec5),
        },
{
    match double_first2(vec) {
        None => Err(AnyError::Empty5(EmptyVec5)),
        Some(Ok(d)) => Ok(d),
        Some(Err(e)) => Err(AnyError::Parse(e)),
    }
}

/// Twice the first number, with each failure handed on as it is, and an
/// early return on it.
pub fn double_first6(vec: Vec<&str>) -> (r: Result<i32, AnyError>)
    requires
        double_fits(vec@),
    ensures
        match r {
            Ok(d) => doubled(vec@) == Some(Ok::<int, ParseError>(d as int)),
            Err(AnyError::Parse(e)) => doubled(vec@) == Some(Err::<int, ParseError>(e)),
            Err(other) => doubled(vec@) is None && other == AnyError::Empty6(EmptyVec6),
        },
{
    let first = match vec.as_slice().first() {
        Some(first) => first,
        None => return Err(AnyError::Empty6(EmptyVec6)),
    };
    let number = match parse_i32(first) {
        Ok(n) => n,
        Err(e) => return Err(AnyError::Parse(e)),
    };
    Ok(2 * number)
}

/// Why there is no first number to double.
#[derive(Clone, Copy, Debug, PartialEq, Eq, Structural)]
pub enum DoubleError7 {
    /// The list is empty.
    EmptyVec,
    /// The first item is no number, for the reason inside.
    Parse(ParseError),
}

impl DoubleError7 {
    /// What went wrong, in words.
    pub fn message(&self) -> (text: String)
        ensures
            text@ == match *self {
                DoubleError7::EmptyVec => "please use a vector with at least one element"@,
                DoubleError7::Parse(_) => "the provided string could not be parsed as int"@,
            },
    {
        match *self {
            DoubleError7::EmptyVec => String::from_str(
                "please use a vector with at least one element",
            ),
            DoubleError7::Parse(_) => String::from_str(
                "the provided string could not be parsed as int",
            ),
        }
    }

    /// The error that lies under this one, where there is one.
    pub fn source(&self) -> (cause: Option<ParseError>)
        ensures
            cause == match *self {
                DoubleError7::EmptyVec => None,
                DoubleError7::Parse(e) => Some(e),
            },
    {
        match *self {
            DoubleError7::EmptyVec => None,
            DoubleError7::Parse(e) => Some(e),
        }
    }
}

impl From<ParseError> for DoubleError7 {
    fn from(err: ParseError) -> (wrapped: DoubleError7) {
        DoubleError7::Parse(err)
    }
}

impl vstd::std_specs::convert::FromSpecImpl<ParseError> for DoubleError7 {
    open spec fn obeys_from_spec() -> bool {
        true
    }

    open spec fn from_spec(err: ParseError) -> DoubleError7 {
        DoubleError7::Parse(err)
    }
}

/// Twice the first number, with an error that tells the two failures apart.
pub fn double_first7(vec: Vec<&str>) -> (r: Result<i32, DoubleError7>)
    requires
        double_fits(vec@),
    ensures
        match r {
            Ok(d) => doubled(vec@) == Some(Ok::<int, ParseError>(d as int)),
            Err(DoubleError7::EmptyVec) => doubled(vec@) is None,
            Err(DoubleError7::Parse(e)) => doubled(vec@) == Some(Err::<int, ParseError>(e)),
        },
{
    let first = match vec.as_slice().first() {
        Some(first) => first,
        None => return Err(DoubleError7::EmptyVec),
    };
    let number = match parse_i32(first) {
        Ok(n) => n,
        Err(e) => return Err(DoubleError7::from(e)),
    };
    Ok(2 * number)
}

} // verus!
