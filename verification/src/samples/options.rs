//! Values that may be missing: drinks, a phone number, food on its way to
//! the table.
use vstd::prelude::*;
use vstd::string::StringExecFns;
use crate::text::{decimal, decimal_of, same_text};

verus! {

/// What an adult says to `drink`.
pub open spec fn adult_says(drink: Option<Seq<char>>) -> Seq<char> {
    match drink {
        Some(inner) => if inner == "lemonade"@ {
            "Yuck! Too sugary."@
        } else {
            inner + "? How nice."@
        },
        None => "No drink? Oh well."@,
    }
}

/// What an adult says to a drink: they can handle any, and like all but
/// lemonade.
pub fn give_adult(cup: Option<&str>) -> (line: String)
    ensures
        line@ == adult_says(
            match cup {
                Some(inner) => Some(inner@),
                None => None,
            },
        ),
{
    match cup {
        Some(inner) => {
            if same_text(inner, "lemonade") {
                String::from_str("Yuck! Too sugary.")
            } else {
                let mut line = String::from_str(inner);
                line.append("? How nice.");
                line
            }
        },
        None => String::from_str("No drink? Oh well."),
    }
}

/// What someone says who drinks `drink`. There has to be a drink, and it
/// must not be lemonade.
pub fn drink(cup: Option<&str>) -> (line: String)
    requires
        cup matches Some(inside) && inside@ != "lemonade"@,
    ensures
        line@ == "I love "@ + cup.unwrap()@ + "s!!!!!"@,
{
    let inside = cup.unwrap();
    let mut line = String::from_str("I love ");
    line.append(inside);
    line.append("s!!!!!");
    line
}

/// A line about the age that is given, where one is given.
pub fn next_birthday(current_age: Option<u8>) -> (line: Option<String>)
    ensures
        match current_age {
            Some(age) => line matches Some(text) && text@ == "Next year I will be "@ + decimal(
                age as nat,
            ),
            None => line is None,
        },
{
    let next_age: u8 = current_age?;
    let mut line = String::from_str("Next year I will be ");
    let number = decimal_of(next_age);
    line.append(number.as_str());
    Some(line)
}

/// A phone number, with or without an area code.
#[derive(Clone, Copy, Debug, PartialEq, Eq, Structural)]
pub struct PhoneNumber {
    pub area_code: Option<u8>,
    pub number: u32,
}

/// A job, with or without a phone.
#[derive(Clone, Copy, Debug, PartialEq, Eq, Structural)]
pub struct Job {
    pub phone_number: Option<PhoneNumber>,
}

/// A person, with or without a job.
#[derive(Clone, Copy, Debug, PartialEq, Eq, Structural)]
pub struct Person {
    pub job: Option<Job>,
}

impl Person {
    /// The area code of the phone of the job, where each of the three is
    /// there.
    pub open spec fn area_code(self) -> Option<u8> {
        match self.job {
            Some(job) => match job.phone_number {
                Some(phone) => phone.area_code,
                None => None,
            },
            None => None,
        }
    }

    /// The area code of the phone number of the person's job, if it exists.
    pub fn work_phone_area_code(&self) -> (code: Option<u8>)
        ensures
            code == self.area_code(),
    {
        self.job?.phone_number?.area_code
    }
}

/// Food as it is bought.
#[derive(Clone, Copy, Debug, PartialEq, Eq, Structural)]
pub enum Food1 {
    Apple,
    Carrot,
    Potato,
}

/// Food that has been peeled.
#[derive(Clone, Copy, Debug, PartialEq, Eq, Structural)]
pub struct Peeled(pub Food1);

/// Food that has been peeled and chopped.
#[derive(Clone, Copy, Debug, PartialEq, Eq, Structural)]
pub struct Chopped(pub Food1);

/// Food that has been peeled, chopped and cooked.
#[derive(Clone, Copy, Debug, PartialEq, Eq, Structural)]
pub struct Cooked(pub Food1);

/// The food after peeling, where there is any.
pub open spec fn peeled(food: Option<Food1>) -> Option<Peeled> {
    match food {
        Some(food) => Some(Peeled(food)),
        None => None,
    }
}

/// The food after chopping, where there is any.
pub open spec fn chopped(peeled: Option<Peeled>) -> Option<Chopped> {
    match peeled {
        Some(Peeled(food)) => Some(Chopped(food)),
        None => None,
    }
}

/// The food after cooking, where there is any.
pub open spec fn cooked(chopped: Option<Chopped>) -> Option<Cooked> {
    match chopped {
        Some(Chopped(food)) => Some(Cooked(food)),
        None => None,
    }
}

/// Peels the food, where there is any.
pub fn peel(food: Option<Food1>) -> (r: Option<Peeled>)
    ensures
        r == peeled(food),
{
    match food {
        Some(food) => Some(Peeled(food)),
        None => None,
    }
}

/// Chops the food, where there is any.
pub fn chop(peeled: Option<Peeled>) -> (r: Option<Chopped>)
    ensures
        r == chopped(peeled),
{
    match peeled {
        Some(Peeled(food)) => Some(Chopped(food)),
        None => None,
    }
}

/// Cooks the food, where there is any.
pub fn cook(chopped: Option<Chopped>) -> (r: Option<Cooked>)
    ensures
        r == cooked(chopped),
{
    match chopped {
        Some(Chopped(food)) => Some(Cooked(food)),
        None => None,
    }
}

/// Peels, chops and cooks the food, where there is any.
pub fn process(food: Option<Food1>) -> (r: Option<Cooked>)
    ensures
        r == cooked(chopped(peeled(food))),
{
    cook(chop(peel(food)))
}

/// A dish.
#[derive(Clone, Copy, Debug, PartialEq, Eq, Structural)]
pub enum Food2 {
    CordonBleu,
    Steak,
    Sushi,
}

/// A day of the week.
#[derive(Clone, Copy, Debug, PartialEq, Eq, Structural)]
pub enum Day {
    Monday,
    Tuesday,
    Wednesday,
}

/// The dish, where its ingredients are at hand: those of every dish but
/// sushi are.
pub fn have_ingredients(food: Food2) -> (r: Option<Food2>)
    ensures
        r == if food == Food2::Sushi {
            None
        } else {
            Some(food)
        },
{
    match food {
        Food2::Sushi => None,
        _ => Some(food),
    }
}

/// The dish, where its recipe is known: that of every dish but cordon bleu
/// is.
pub fn have_recipe(food: Food2) -> (r: Option<Food2>)
    ensures
        r == if food == Food2::CordonBleu {
            None
        } else {
            Some(food)
        },
{
    match food {
        Food2::CordonBleu => None,
        _ => Some(food),
    }
}

/// The dish, where it can be made: with both its recipe and its ingredients.
pub open spec fn cookable(food: Food2) -> Option<Food2> {
    if food == Food2::Steak {
        Some(food)
    } else {
        None
    }
}

/// The dish, where it can be made; found by a chain of matches.
pub fn cookable_v1(food: Food2) -> (r: Option<Food2>)
    ensures
        r == cookable(food),
{
    match have_recipe(food) {
        None => None,
        Some(food) => match have_ingredients(food) {
            None => None,
            Some(food) => Some(food),
        },
    }
}

/// The dish, where it can be made; found by one step after the other.
pub fn cookable_v2(food: Food2) -> (r: Option<Food2>)
    ensures
        r == cookable(food),
{
    have_recipe(food).and_then(have_ingredients)
}

} // verus!
