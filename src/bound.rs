use vstd::prelude::*;

verus! {

/// One side of an interval, before it is known which side: open at a value
/// (the value itself is left out), closed at a value (it is kept), or
/// unbounded.
#[derive(Debug, Clone, Copy, PartialEq, Eq, Structural)]
pub enum Bound {
    Open(i64),
    Closed(i64),
    Unbound,
}

} // verus!
