use crate::bound::Bound;
use crate::bounds::IBound;
use crate::left::Left;
use std::cmp::Ordering;
use vstd::prelude::*;

verus! {

/// A bound used as the right side of an interval.
#[derive(Debug, Clone, Copy)]
pub struct Right(pub Bound);

impl Right {
    /// The directed endpoint that this right side stands for.
    pub open spec fn ib(self) -> IBound {
        match self.0 {
            Bound::Open(k) => IBound::RightOpen(k),
            Bound::Closed(k) => IBound::Closed(k),
            Bound::Unbound => IBound::PosInfy,
        }
    }

    /// The last point that a bounded right side admits, in the half units of
    /// `Left::first`.
    pub open spec fn last(self) -> int {
        match self.0 {
            Bound::Open(k) => 2 * k - 1,
            Bound::Closed(k) => 2 * k,
            Bound::Unbound => 0,
        }
    }

    /// Whether the point `p` (in half units) lies on the admitted side.
    pub open spec fn admits(self, p: int) -> bool {
        self.0 is Unbound || p <= self.last()
    }

    /// The directed endpoint that this right side stands for.
    pub fn ibound(self) -> (r: IBound)
        ensures
            r == self.ib(),
    {
        match self.0 {
            Bound::Open(k) => IBound::RightOpen(k),
            Bound::Closed(k) => IBound::Closed(k),
            Bound::Unbound => IBound::PosInfy,
        }
    }

    /// The lesser of two right sides; the second one where they are tied.
    pub open spec fn min_spec(self, other: Right) -> Right {
        if self.ib().precedes(other.ib()) {
            self
        } else {
            other
        }
    }

    /// The greater of two right sides; the second one where they are tied.
    pub open spec fn max_spec(self, other: Right) -> Right {
        if other.ib().precedes(self.ib()) {
            self
        } else {
            other
        }
    }

    /// The lesser of two right sides, that is the one that admits less.
    pub fn min(self, other: Right) -> (r: Right)
        ensures
            r == self.min_spec(other),
            r == self || r == other,
            !self.ib().precedes(r.ib()),
            !other.ib().precedes(r.ib()),
    {
        if self.ibound().precedes_exec(&other.ibound()) {
            self
        } else {
            proof {
                crate::bounds::lemma_total_order(self.ib(), other.ib(), other.ib());
            }
            other
        }
    }

    /// The greater of two right sides, that is the one that admits more.
    pub fn max(self, other: Right) -> (r: Right)
        ensures
            r == self.max_spec(other),
            r == self || r == other,
            !r.ib().precedes(self.ib()),
            !r.ib().precedes(other.ib()),
    {
        if other.ibound().precedes_exec(&self.ibound()) {
            self
        } else {
            proof {
                crate::bounds::lemma_total_order(self.ib(), other.ib(), other.ib());
            }
            other
        }
    }

    /// Whether this right side and the left side `other` touch: at the same
    /// value, and not both open.
    pub fn closure(self, other: Left) -> (r: bool)
        ensures
            r == other.meets(self),
    {
        match (other.0, self.0) {
            (Bound::Closed(k1), Bound::Closed(k2)) => k1 == k2,
            (Bound::Open(k1), Bound::Closed(k2)) => k1 == k2,
            (Bound::Closed(k1), Bound::Open(k2)) => k1 == k2,
            _ => false,
        }
    }
}

impl PartialEq for Right {
    fn eq(&self, other: &Right) -> (r: bool) {
        self.0 == other.0
    }
}

impl vstd::std_specs::cmp::PartialEqSpecImpl for Right {
    open spec fn obeys_eq_spec() -> bool {
        true
    }

    open spec fn eq_spec(&self, other: &Right) -> bool {
        self.0 == other.0
    }
}

impl PartialEq<Left> for Right {
    fn eq(&self, other: &Left) -> (r: bool) {
        match (other.0, self.0) {
            (Bound::Closed(k1), Bound::Closed(k2)) => k1 == k2,
            _ => false,
        }
    }
}

impl vstd::std_specs::cmp::PartialEqSpecImpl<Left> for Right {
    open spec fn obeys_eq_spec() -> bool {
        true
    }

    open spec fn eq_spec(&self, other: &Left) -> bool {
        self.ib() == other.ib()
    }
}

impl PartialOrd for Right {
    fn partial_cmp(&self, other: &Right) -> (r: Option<Ordering>) {
        Some(self.ibound().compare(&other.ibound()))
    }
}

impl vstd::std_specs::cmp::PartialOrdSpecImpl for Right {
    open spec fn obeys_partial_cmp_spec() -> bool {
        true
    }

    open spec fn partial_cmp_spec(&self, other: &Right) -> Option<Ordering> {
        Some(self.ib().compare_spec(other.ib()))
    }
}

impl PartialOrd<Left> for Right {
    fn partial_cmp(&self, other: &Left) -> (r: Option<Ordering>) {
        Some(self.ibound().compare(&other.ibound()))
    }
}

impl vstd::std_specs::cmp::PartialOrdSpecImpl<Left> for Right {
    open spec fn obeys_partial_cmp_spec() -> bool {
        true
    }

    open spec fn partial_cmp_spec(&self, other: &Left) -> Option<Ordering> {
        Some(self.ib().compare_spec(other.ib()))
    }
}

} // verus!
