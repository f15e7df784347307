use std::cmp::Ordering;
use vstd::prelude::*;

verus! {

/// An endpoint that knows which side of an interval it stands on.
///
/// A left endpoint open at `k` is `LeftOpen(k)`, a right one `RightOpen(k)`;
/// a closed endpoint is `Closed(k)` on either side; the unbounded left side is
/// `NegInfy` and the unbounded right side `PosInfy`.
#[derive(Debug, Clone, Copy, PartialEq, Eq, Structural)]
pub enum IBound {
    LeftOpen(i64),
    RightOpen(i64),
    Closed(i64),
    NegInfy,
    PosInfy,
}

impl IBound {
    /// The value at which a finite endpoint sits.
    pub open spec fn value(self) -> int {
        match self {
            IBound::LeftOpen(k) => k as int,
            IBound::RightOpen(k) => k as int,
            IBound::Closed(k) => k as int,
            _ => 0,
        }
    }

    /// Where a finite endpoint sits next to its value, by an infinitesimal
    /// step: just above it when open on the left, just below it when open on
    /// the right, on it when closed.
    pub open spec fn offset(self) -> int {
        match self {
            IBound::LeftOpen(_) => 1,
            IBound::RightOpen(_) => -1,
            _ => 0,
        }
    }

    /// The strict order of endpoints along the line: the unbounded sides at
    /// the two extremes, finite endpoints by value and then by offset.
    pub open spec fn precedes(self, other: IBound) -> bool {
        match (self, other) {
            (IBound::NegInfy, IBound::NegInfy) => false,
            (IBound::NegInfy, _) => true,
            (IBound::PosInfy, _) => false,
            (_, IBound::NegInfy) => false,
            (_, IBound::PosInfy) => true,
            _ => self.value() < other.value() || (self.value() == other.value()
                && self.offset() < other.offset()),
        }
    }

    /// How `self` stands against `other` in the order of endpoints.
    pub open spec fn compare_spec(self, other: IBound) -> Ordering {
        if self.precedes(other) {
            Ordering::Less
        } else if other.precedes(self) {
            Ordering::Greater
        } else {
            Ordering::Equal
        }
    }

    /// The endpoint closed at the same place, for a finite one.
    pub open spec fn closure_spec(self) -> IBound {
        match self {
            IBound::LeftOpen(k) => IBound::Closed(k),
            IBound::RightOpen(k) => IBound::Closed(k),
            _ => self,
        }
    }

    /// Tells whether `self` comes strictly before `other` on the line.
    pub fn precedes_exec(&self, other: &IBound) -> (r: bool)
        ensures
            r == self.precedes(*other),
    {
        match (*self, *other) {
            (IBound::Closed(k1), IBound::Closed(k2))
            | (IBound::Closed(k1), IBound::RightOpen(k2))
            | (IBound::LeftOpen(k1), IBound::Closed(k2))
            | (IBound::LeftOpen(k1), IBound::LeftOpen(k2))
            | (IBound::LeftOpen(k1), IBound::RightOpen(k2))
            | (IBound::RightOpen(k1), IBound::RightOpen(k2)) => k1 < k2,
            (IBound::Closed(k1), IBound::LeftOpen(k2))
            | (IBound::RightOpen(k1), IBound::Closed(k2))
            | (IBound::RightOpen(k1), IBound::LeftOpen(k2)) => k1 <= k2,
            (IBound::PosInfy, _) | (_, IBound::NegInfy) => false,
            _ => true,
        }
    }

    /// Compares two endpoints in the order of the line.
    pub fn compare(&self, other: &IBound) -> (r: Ordering)
        ensures
            r == self.compare_spec(*other),
    {
        if self.precedes_exec(other) {
            Ordering::Less
        } else if other.precedes_exec(self) {
            Ordering::Greater
        } else {
            Ordering::Equal
        }
    }

    /// The lesser of two endpoints.
    pub fn min(self, b2: IBound) -> (r: IBound)
        ensures
            r == self || r == b2,
            !self.precedes(r),
            !b2.precedes(r),
    {
        proof {
            lemma_total_order(self, b2, b2);
        }
        if self.precedes_exec(&b2) {
            self
        } else {
            b2
        }
    }

    /// The greater of two endpoints.
    pub fn max(self, b2: IBound) -> (r: IBound)
        ensures
            r == self || r == b2,
            !r.precedes(self),
            !r.precedes(b2),
    {
        proof {
            lemma_total_order(self, b2, b2);
        }
        if b2.precedes_exec(&self) {
            self
        } else {
            b2
        }
    }

    /// The endpoint closed at the same value; an unbounded side stays as it is.
    pub fn closure(self) -> (r: IBound)
        ensures
            r == self.closure_spec(),
    {
        match self {
            IBound::NegInfy => IBound::NegInfy,
            IBound::PosInfy => IBound::PosInfy,
            IBound::Closed(k) | IBound::LeftOpen(k) | IBound::RightOpen(k) => IBound::Closed(k),
        }
    }
}

/// The order of endpoints is a strict total order in which two endpoints are
/// tied only when they are the same endpoint.
pub proof fn lemma_total_order(a: IBound, b: IBound, c: IBound)
    ensures
        !a.precedes(a),
        a.precedes(b) ==> !b.precedes(a),
        a.precedes(b) && b.precedes(c) ==> a.precedes(c),
        a.precedes(b) || b.precedes(a) || a == b,
{
}

impl PartialOrd for IBound {
    fn partial_cmp(&self, other: &IBound) -> (r: Option<Ordering>) {
        Some(self.compare(other))
    }
}

impl vstd::std_specs::cmp::PartialOrdSpecImpl for IBound {
    open spec fn obeys_partial_cmp_spec() -> bool {
        true
    }

    open spec fn partial_cmp_spec(&self, other: &IBound) -> Option<Ordering> {
        Some(self.compare_spec(*other))
    }
}

} // verus!
