//! A hash-based multiset: every distinct item is stored once, together with a
//! count drawn from a numeric type of the caller's choice.

pub mod count;
pub mod sums;
pub mod multiset;
pub mod laws;

pub use crate::count::Count;
pub use crate::multiset::HashMultiset;
