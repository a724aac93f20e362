//! Small pieces on their own: units kept apart by type, options and results
//! passed along a chain, and errors of more than one kind.
pub mod units;
pub mod person;
pub mod parse;
pub mod results;
pub mod options;
pub mod double_first;
