//! Ages in years and in days, kept apart by their types.
use vstd::prelude::*;

verus! {

/// A span of time in years.
#[derive(Clone, Copy, Debug, PartialEq, Eq, Structural)]
pub struct Years(pub i64);

/// A span of time in days.
#[derive(Clone, Copy, Debug, PartialEq, Eq, Structural)]
pub struct Days(pub i64);

impl Years {
    /// The number of days in the span, a year counted as 365 days.
    pub open spec fn in_days(self) -> int {
        self.0 * 365
    }

    /// The same span in days, a year counted as 365 days.
    pub fn to_days(&self) -> (days: Days)
        requires
            i64::MIN <= self.in_days() <= i64::MAX,
        ensures
            days.0 == self.in_days(),
    {
        Days(self.0 * 365)
    }
}

impl Days {
    /// The number of full years in the span. What is left over after the last
    /// full year is dropped, towards zero.
    pub open spec fn full_years(self) -> int {
        if self.0 >= 0 {
            self.0 / 365
        } else {
            -((-self.0) / 365)
        }
    }

    /// The same span in years, without the days that make no full year.
    pub fn to_years(&self) -> (years: Years)
        ensures
            years.0 == self.full_years(),
    {
        Years(self.0 / 365)
    }
}

/// Whether `age` is 18 years or more.
pub fn old_enough(age: &Years) -> (b: bool)
    ensures
        b == (age.0 >= 18),
{
    age.0 >= 18
}

/// A pair of numbers.
#[derive(Clone, Copy, Debug, PartialEq, Eq, Structural)]
pub struct Container(pub i32, pub i32);

/// Something that holds a first and a last number, and can be asked whether
/// it holds a given pair. The two types of the pair are parameters of the
/// trait.
pub trait Contains1<A, B> {
    /// Whether this holds `a` and `b`.
    spec fn spec_contains1(&self, a: &A, b: &B) -> bool;

    /// The first number.
    spec fn spec_first1(&self) -> i32;

    /// The last number.
    spec fn spec_last1(&self) -> i32;

    /// Whether this holds `a` and `b`.
    fn contains1(&self, a: &A, b: &B) -> (r: bool)
        ensures
            r == self.spec_contains1(a, b),
    ;

    /// The first number.
    fn first1(&self) -> (r: i32)
        ensures
            r == self.spec_first1(),
    ;

    /// The last number.
    fn last1(&self) -> (r: i32)
        ensures
            r == self.spec_last1(),
    ;
}

impl Contains1<i32, i32> for Container {
    open spec fn spec_contains1(&self, a: &i32, b: &i32) -> bool {
        self.0 == *a && self.1 == *b
    }

    open spec fn spec_first1(&self) -> i32 {
        self.0
    }

    open spec fn spec_last1(&self) -> i32 {
        self.1
    }

    fn contains1(&self, number_1: &i32, number_2: &i32) -> (r: bool) {
        (self.0 == *number_1) && (self.1 == *number_2)
    }

    fn first1(&self) -> (r: i32) {
        self.0
    }

    fn last1(&self) -> (r: i32) {
        self.1
    }
}

/// The last number of `container` less its first.
pub fn difference1<A, B, C>(container: &C) -> (d: i32) where C: Contains1<A, B>
    requires
        i32::MIN <= container.spec_last1() - container.spec_first1() <= i32::MAX,
    ensures
        d == container.spec_last1() - container.spec_first1(),
{
    container.last1() - container.first1()
}

/// The same as `Contains1`, with the two types of the pair as associated
/// types.
pub trait Contains2 {
    type A;

    type B;

    /// Whether this holds `a` and `b`.
    spec fn spec_contains2(&self, a: &Self::A, b: &Self::B) -> bool;

    /// The first number.
    spec fn spec_first2(&self) -> i32;

    /// The last number.
    spec fn spec_last2(&self) -> i32;

    /// Whether this holds `a` and `b`.
    fn contains2(&self, a: &Self::A, b: &Self::B) -> (r: bool)
        ensures
            r == self.spec_contains2(a, b),
    ;

    /// The first number.
    fn first2(&self) -> (r: i32)
        ensures
            r == self.spec_first2(),
    ;

    /// The last number.
    fn last2(&self) -> (r: i32)
        ensures
            r == self.spec_last2(),
    ;
}

impl Contains2 for Container {
    type A = i32;

    type B = i32;

    open spec fn spec_contains2(&self, a: &i32, b: &i32) -> bool {
        self.0 == *a && self.1 == *b
    }

    open spec fn spec_first2(&self) -> i32 {
        self.0
    }

    open spec fn spec_last2(&self) -> i32 {
        self.1
    }

    fn contains2(&self, number_1: &i32, number_2: &i32) -> (r: bool) {
        (self.0 == *number_1) && (self.1 == *number_2)
    }

    fn first2(&self) -> (r: i32) {
        self.0
    }

    fn last2(&self) -> (r: i32) {
        self.1
    }
}

/// The last number of `container` less its first.
pub fn difference2<C: Contains2>(container: &C) -> (d: i32)
    requires
        i32::MIN <= container.spec_last2() - container.spec_first2() <= i32::MAX,
    ensures
        d == container.spec_last2() - container.spec_first2(),
{
    container.last2() - container.first2()
}

/// A span of years, turned into days and back, is the same span.
pub proof fn lemma_days_and_back(years: Years)
    requires
        i64::MIN <= years.in_days() <= i64::MAX,
    ensures
        Days(years.in_days() as i64).full_years() == years.0,
{
    assert((years.0 * 365) / 365 == years.0) by (nonlinear_arith);
    assert((-(years.0 * 365)) / 365 == -years.0) by (nonlinear_arith);
}

} // verus!
