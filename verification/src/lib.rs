//! Alternating iteration over two sources.
//!
//! Zipping two iterators hands out their items in pairs. The alternators of
//! this crate hand out one item at a time, tagged with the source it came
//! from, and leave it to a rule which source is next: a fixed schedule of run
//! lengths (`LinearCorIter`) or a function of the last item (`CorIter`).

pub mod either;
pub mod extension;
pub mod linear;
pub mod pattern;
pub mod predicate;
pub mod schedule;
pub mod source;

pub use crate::either::Either;
pub use crate::extension::Correlate;
pub use crate::linear::LinearCorIter;
pub use crate::predicate::CorIter;
