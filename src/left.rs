use crate::bound::Bound;
use crate::bounds::IBound;
use crate::right::Right;
use std::cmp::Ordering;
use vstd::prelude::*;

verus! {

/// A bound used as the left side of an interval.
#[derive(Debug, Clone, Copy)]
pub struct Left(pub Bound);

impl Left {
    /// The directed endpoint that this left side stands for.
    pub open spec fn ib(self) -> IBound {
        match self.0 {
            Bound::Open(k) => IBound::LeftOpen(k),
            Bound::Closed(k) => IBound::Closed(k),
            Bound::Unbound => IBound::NegInfy,
        }
    }

    /// The first point that a bounded left side admits. Points are counted in
    /// half units: the point `p` stands for `p / 2` on the line, so that
    /// between two neighbouring values there is always a point equal to
    /// neither. Two intervals with integer ends that differ as sets of the
    /// real line then differ in these points too.
    pub open spec fn first(self) -> int {
        match self.0 {
            Bound::Open(k) => 2 * k + 1,
            Bound::Closed(k) => 2 * k,
            Bound::Unbound => 0,
        }
    }

    /// Whether the point `p` (in half units) lies on the admitted side.
    pub open spec fn admits(self, p: int) -> bool {
        self.0 is Unbound || self.first() <= p
    }

    /// Whether this left side and the right side `r` sit at the same value,
    /// with at least one of them closed: then nothing lies between them.
    pub open spec fn meets(self, r: Right) -> bool {
        match (self.0, r.0) {
            (Bound::Closed(k1), Bound::Closed(k2)) => k1 == k2,
            (Bound::Open(k1), Bound::Closed(k2)) => k1 == k2,
            (Bound::Closed(k1), Bound::Open(k2)) => k1 == k2,
            _ => false,
        }
    }

    /// The directed endpoint that this left side stands for.
    pub fn ibound(self) -> (r: IBound)
        ensures
            r == self.ib(),
    {
        match self.0 {
            Bound::Open(k) => IBound::LeftOpen(k),
            Bound::Closed(k) => IBound::Closed(k),
            Bound::Unbound => IBound::NegInfy,
        }
    }

    /// The lesser of two left sides; the second one where they are tied.
    pub open spec fn min_spec(self, other: Left) -> Left {
        if self.ib().precedes(other.ib()) {
            self
        } else {
            other
        }
    }

    /// The greater of two left sides; the second one where they are tied.
    pub open spec fn max_spec(self, other: Left) -> Left {
        if other.ib().precedes(self.ib()) {
            self
        } else {
            other
        }
    }

    /// The lesser of two left sides, that is the one that admits more.
    pub fn min(self, other: Left) -> (r: Left)
        ensures
            r == self.min_spec(other),
            r == self || r == other,
            !self.ib().precedes(r.ib()),
            !other.ib().precedes(r.ib()),
    {
        if self.ibound().precedes_exec(&other.ibound()) {
            self
        } else {
            proof {
                crate::bounds::lemma_total_order(self.ib(), other.ib(), other.ib());
            }
            other
        }
    }

    /// The greater of two left sides, that is the one that admits less.
    pub fn max(self, other: Left) -> (r: Left)
        ensures
            r == self.max_spec(other),
            r == self || r == other,
            !r.ib().precedes(self.ib()),
            !r.ib().precedes(other.ib()),
    {
        if other.ibound().precedes_exec(&self.ibound()) {
            self
        } else {
            proof {
                crate::bounds::lemma_total_order(self.ib(), other.ib(), other.ib());
            }
            other
        }
    }

    /// Whether this left side and the right side `other` touch: at the same
    /// value, and not both open.
    pub fn closure(self, other: Right) -> (r: bool)
        ensures
            r == self.meets(other),
    {
        match (self.0, other.0) {
            (Bound::Closed(k1), Bound::Closed(k2)) => k1 == k2,
            (Bound::Open(k1), Bound::Closed(k2)) => k1 == k2,
            (Bound::Closed(k1), Bound::Open(k2)) => k1 == k2,
            _ => false,
        }
    }
}

impl PartialEq for Left {
    fn eq(&self, other: &Left) -> (r: bool) {
        self.0 == other.0
    }
}

impl vstd::std_specs::cmp::PartialEqSpecImpl for Left {
    open spec fn obeys_eq_spec() -> bool {
        true
    }

    open spec fn eq_spec(&self, other: &Left) -> bool {
        self.0 == other.0
    }
}

impl PartialEq<Right> for Left {
    fn eq(&self, other: &Right) -> (r: bool) {
        match (self.0, other.0) {
            (Bound::Closed(k1), Bound::Closed(k2)) => k1 == k2,
            _ => false,
        }
    }
}

impl vstd::std_specs::cmp::PartialEqSpecImpl<Right> for Left {
    open spec fn obeys_eq_spec() -> bool {
        true
    }

    open spec fn eq_spec(&self, other: &Right) -> bool {
        self.ib() == other.ib()
    }
}

impl PartialOrd for Left {
    fn partial_cmp(&self, other: &Left) -> (r: Option<Ordering>) {
        Some(self.ibound().compare(&other.ibound()))
    }
}

impl vstd::std_specs::cmp::PartialOrdSpecImpl for Left {
    open spec fn obeys_partial_cmp_spec() -> bool {
        true
    }

    open spec fn partial_cmp_spec(&self, other: &Left) -> Option<Ordering> {
        Some(self.ib().compare_spec(other.ib()))
    }
}

impl PartialOrd<Right> for Left {
    fn partial_cmp(&self, other: &Right) -> (r: Option<Ordering>) {
        Some(self.ibound().compare(&other.ibound()))
    }
}

impl vstd::std_specs::cmp::PartialOrdSpecImpl<Right> for Left {
    open spec fn obeys_partial_cmp_spec() -> bool {
        true
    }

    open spec fn partial_cmp_spec(&self, other: &Right) -> Option<Ordering> {
        Some(self.ib().compare_spec(other.ib()))
    }
}

} // verus!
