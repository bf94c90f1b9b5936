//! Permuted multiples: the least positive integer whose first six multiples
//! are all written with the same decimal digits.
//!
//! [`decimal`] models the decimal numeral of an integer and computes its
//! digit multiset, the digits in ascending order, with the help of
//! [`sorting`]. [`search`] holds the test on one candidate and the search for
//! the least candidate that passes it. [`leading`] and [`minimality`] prove
//! that this least candidate is 142857.

pub mod decimal;
pub mod leading;
pub mod minimality;
pub mod search;
pub mod sorting;

pub use decimal::digits;
pub use search::condition;
pub use search::solve;
