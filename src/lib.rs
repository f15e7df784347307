//! An algebra of intervals over the integer line: endpoints that are open,
//! closed or unbounded, intervals built from them, the union of two intervals,
//! and sets of intervals kept in a canonical form under repeated union.

mod bound;
mod bounds;
mod interval;
mod interval_set;
mod left;
mod render;
mod right;

pub use bound::Bound;
pub use bounds::IBound;
pub use interval::{Interval, Union, EMPTY, INFINITY};
pub use interval_set::IntervalSet;
pub use left::Left;
pub use right::Right;
