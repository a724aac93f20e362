//! A person with a name, and a greeting for them.
use vstd::prelude::*;
use vstd::string::StringExecFns;

verus! {

/// A human being.
#[derive(Debug)]
pub struct Person {
    /// A person must have a name.
    name: String,
}

impl View for Person {
    type V = Seq<char>;

    /// A person is seen as their name.
    closed spec fn view(&self) -> Seq<char> {
        self.name@
    }
}

/// The line that greets a person of the name `name`.
pub open spec fn greeting(name: Seq<char>) -> Seq<char> {
    "Hello, "@ + name + "!"@
}

impl Person {
    /// A person with the name given them.
    pub fn new(name: &str) -> (person: Person)
        ensures
            person@ == name@,
    {
        Person { name: String::from_str(name) }
    }

    /// The name of the person.
    pub fn name(&self) -> (name: &str)
        ensures
            name@ == self@,
    {
        self.name.as_str()
    }

    /// A friendly hello: the line "Hello, " with the name and "!" after it.
    pub fn hello(&self) -> (line: String)
        ensures
            line@ == greeting(self@),
    {
        let mut line = String::from_str("Hello, ");
        line.append(self.name.as_str());
        line.append("!");
        line
    }
}

/// A type with nothing in it.
#[derive(Clone, Copy, Debug, PartialEq, Eq, Structural)]
pub struct Bar;

} // verus!
