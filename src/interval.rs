use crate::bound::Bound;
use crate::left::Left;
use crate::right::Right;
use vstd::prelude::*;

verus! {

/// A connected set of points of the line: empty, the whole line, or the
/// points between a left and a right side.
///
/// A well-formed `Range` holds at least one point and is bounded on at least
/// one side; the whole line is always `Infinity`.
#[derive(Debug, Clone, Copy)]
pub enum Interval {
    Empty,
    Infinity,
    Range(Left, Right),
}

/// What the union of two intervals gives: one interval, or two that lie
/// apart, the lower one first.
#[derive(Debug, Clone, Copy)]
pub enum Union {
    Single(Interval),
    Couple(Interval, Interval),
}

/// The whole line.
pub const INFINITY: Interval = Interval::Infinity;

/// The empty interval.
pub const EMPTY: Interval = Interval::Empty;

impl Interval {
    /// The invariant of a `Range`: its right side does not come before its
    /// left side, and it is not unbounded on both sides.
    pub open spec fn wf(self) -> bool {
        match self {
            Interval::Range(l, r) => !r.ib().precedes(l.ib()) && !(l.0 is Unbound && r.0 is Unbound),
            _ => true,
        }
    }

    /// Whether the interval holds the point `p`, in the half units of
    /// `Left::first`.
    pub open spec fn contains(self, p: int) -> bool {
        match self {
            Interval::Empty => false,
            Interval::Infinity => true,
            Interval::Range(l, r) => l.admits(p) && r.admits(p),
        }
    }

    /// Whether the point `p` is on the admitted side of the lower end.
    pub open spec fn above_lower(self, p: int) -> bool {
        match self {
            Interval::Empty => false,
            Interval::Infinity => true,
            Interval::Range(l, _) => l.admits(p),
        }
    }

    /// Whether the point `p` is on the admitted side of the upper end.
    pub open spec fn below_upper(self, p: int) -> bool {
        match self {
            Interval::Empty => false,
            Interval::Infinity => true,
            Interval::Range(_, r) => r.admits(p),
        }
    }

    /// The points that the interval holds.
    pub open spec fn points(self) -> Set<int> {
        Set::new(|p: int| self.contains(p))
    }

    /// The interval between a left and a right side that are in order: the
    /// whole line where both are unbounded.
    pub open spec fn span(l: Left, r: Right) -> Interval {
        if l.0 is Unbound && r.0 is Unbound {
            Interval::Infinity
        } else {
            Interval::Range(l, r)
        }
    }

    /// The interval from `b1` on the left to `b2` on the right: empty where
    /// the right side comes before the left side.
    pub open spec fn new_spec(b1: Bound, b2: Bound) -> Interval {
        if Right(b2).ib().precedes(Left(b1).ib()) {
            Interval::Empty
        } else {
            Interval::span(Left(b1), Right(b2))
        }
    }

    /// Whether two intervals share a point: the empty interval shares none,
    /// the whole line shares one with any other.
    pub open spec fn overlap_spec(self, other: Interval) -> bool {
        match (self, other) {
            (Interval::Empty, _) => false,
            (_, Interval::Empty) => false,
            (Interval::Infinity, _) => true,
            (_, Interval::Infinity) => true,
            (Interval::Range(a1, a2), Interval::Range(b1, b2)) => !b2.ib().precedes(a1.ib())
                && !a2.ib().precedes(b1.ib()),
        }
    }

    /// Whether two ranges touch: a side of one meets the facing side of the
    /// other.
    pub open spec fn adhere_spec(self, other: Interval) -> bool {
        match (self, other) {
            (Interval::Range(a1, a2), Interval::Range(b1, b2)) => b1.meets(a2) || a1.meets(b2),
            _ => false,
        }
    }

    /// The union of two intervals.
    pub open spec fn union_spec(self, other: Interval) -> Union {
        match (self, other) {
            (Interval::Empty, _) => Union::Single(other),
            (_, Interval::Empty) => Union::Single(self),
            (Interval::Infinity, _) => Union::Single(Interval::Infinity),
            (_, Interval::Infinity) => Union::Single(Interval::Infinity),
            (Interval::Range(a1, a2), Interval::Range(b1, b2)) => {
                if self.overlap_spec(other) || self.adhere_spec(other) {
                    Union::Single(Interval::span(a1.min_spec(b1), a2.max_spec(b2)))
                } else if a2.ib().precedes(b1.ib()) {
                    Union::Couple(self, other)
                } else {
                    Union::Couple(other, self)
                }
            },
        }
    }

    /// `self` lies wholly before `other`, with a point between them that
    /// neither holds.
    pub open spec fn before(self, other: Interval) -> bool {
        match (self, other) {
            (Interval::Range(_, a2), Interval::Range(b1, _)) => {
                &&& !(a2.0 is Unbound)
                &&& !(b1.0 is Unbound)
                &&& a2.last() + 1 < b1.first()
            },
            _ => false,
        }
    }

    /// Builds the interval from `b1` on the left to `b2` on the right.
    pub fn new(b1: Bound, b2: Bound) -> (r: Interval)
        ensures
            r == Interval::new_spec(b1, b2),
            r.wf(),
    {
        let l = Left(b1);
        let r = Right(b2);
        if r.ibound().precedes_exec(&l.ibound()) {
            Interval::Empty
        } else {
            Interval::make_span(l, r)
        }
    }

    fn make_span(l: Left, r: Right) -> (res: Interval)
        ensures
            res == Interval::span(l, r),
    {
        match (l.0, r.0) {
            (Bound::Unbound, Bound::Unbound) => Interval::Infinity,
            _ => Interval::Range(l, r),
        }
    }

    /// The interval that holds the value `k` alone.
    pub fn singleton(k: i64) -> (r: Interval)
        ensures
            r == Interval::Range(Left(Bound::Closed(k)), Right(Bound::Closed(k))),
            r.wf(),
    {
        Interval::Range(Left(Bound::Closed(k)), Right(Bound::Closed(k)))
    }

    /// Whether the interval is closed on both sides at one value.
    pub fn is_singleton(&self) -> (r: bool)
        ensures
            r == (*self matches Interval::Range(Left(Bound::Closed(k1)), Right(Bound::Closed(k2)))
                && k1 == k2),
    {
        match *self {
            Interval::Range(Left(Bound::Closed(k1)), Right(Bound::Closed(k2))) => k1 == k2,
            _ => false,
        }
    }

    /// Whether the interval is the empty one.
    pub fn is_empty(&self) -> (r: bool)
        ensures
            r == (*self is Empty),
    {
        match *self {
            Interval::Empty => true,
            _ => false,
        }
    }

    /// Whether two intervals share a point.
    pub fn overlap(self, other: Interval) -> (r: bool)
        ensures
            r == self.overlap_spec(other),
    {
        match (self, other) {
            (Interval::Empty, _) | (_, Interval::Empty) => false,
            (Interval::Infinity, _) | (_, Interval::Infinity) => true,
            (Interval::Range(a1, a2), Interval::Range(b1, b2)) => {
                !b2.ibound().precedes_exec(&a1.ibound()) && !a2.ibound().precedes_exec(
                    &b1.ibound(),
                )
            },
        }
    }

    /// Whether two ranges touch without a gap between them.
    pub fn adhere_to(self, other: Interval) -> (r: bool)
        ensures
            r == self.adhere_spec(other),
    {
        match (self, other) {
            (Interval::Range(a1, a2), Interval::Range(b1, b2)) => b1.closure(a2) || a1.closure(
                b2,
            ),
            _ => false,
        }
    }

    /// The range from the lesser left side to the greater right side.
    fn force_merge(a1: Left, a2: Right, b1: Left, b2: Right) -> (r: Interval)
        ensures
            r == Interval::span(a1.min_spec(b1), a2.max_spec(b2)),
    {
        Interval::make_span(a1.min(b1), a2.max(b2))
    }

    /// The union of two intervals: one interval where they share a point or
    /// touch, else the two of them, the lower one first.
    pub fn union(self, other: Interval) -> (r: Union)
        requires
            self.wf(),
            other.wf(),
        ensures
            r == self.union_spec(other),
            r matches Union::Single(i) ==> i.wf() && i.points() == self.points().union(
                other.points(),
            ),
            r matches Union::Couple(x, y) ==> {
                &&& x.wf() && y.wf()
                &&& x.before(y)
                &&& (x == self && y == other) || (x == other && y == self)
            },
    {
        proof {
            lemma_union(self, other);
        }
        match (self, other) {
            (Interval::Empty, _) => Union::Single(other),
            (_, Interval::Empty) => Union::Single(self),
            (Interval::Infinity, _) | (_, Interval::Infinity) => Union::Single(Interval::Infinity),
            (Interval::Range(a1, a2), Interval::Range(b1, b2)) => {
                if self.overlap(other) || self.adhere_to(other) {
                    Union::Single(Interval::force_merge(a1, a2, b1, b2))
                } else if a2.ibound().precedes_exec(&b1.ibound()) {
                    Union::Couple(self, other)
                } else {
                    Union::Couple(other, self)
                }
            },
        }
    }
}

impl PartialEq for Interval {
    fn eq(&self, other: &Interval) -> (r: bool) {
        match (*self, *other) {
            (Interval::Empty, Interval::Empty) => true,
            (Interval::Infinity, Interval::Infinity) => true,
            (Interval::Range(a1, a2), Interval::Range(b1, b2)) => a1 == b1 && a2 == b2,
            _ => false,
        }
    }
}

impl vstd::std_specs::cmp::PartialEqSpecImpl for Interval {
    open spec fn obeys_eq_spec() -> bool {
        true
    }

    open spec fn eq_spec(&self, other: &Interval) -> bool {
        *self == *other
    }
}

impl PartialEq for Union {
    fn eq(&self, other: &Union) -> (r: bool) {
        match (*self, *other) {
            (Union::Single(a), Union::Single(b)) => a == b,
            (Union::Couple(a1, a2), Union::Couple(b1, b2)) => a1 == b1 && a2 == b2,
            _ => false,
        }
    }
}

impl vstd::std_specs::cmp::PartialEqSpecImpl for Union {
    open spec fn obeys_eq_spec() -> bool {
        true
    }

    open spec fn eq_spec(&self, other: &Union) -> bool {
        *self == *other
    }
}

/// The union of two well-formed intervals holds exactly the points of the
/// two; where it gives two intervals, they lie apart, the lower one first.
pub proof fn lemma_union(a: Interval, b: Interval)
    requires
        a.wf(),
        b.wf(),
    ensures
        a.union_spec(b) matches Union::Single(i) ==> i.wf() && i.points() == a.points().union(
            b.points(),
        ),
        a.union_spec(b) matches Union::Couple(x, y) ==> {
            &&& x.wf() && y.wf()
            &&& x.before(y)
            &&& (x == a && y == b) || (x == b && y == a)
        },
{
    if let (Interval::Range(a1, a2), Interval::Range(b1, b2)) = (a, b) {
        crate::bounds::lemma_total_order(a1.ib(), b1.ib(), a2.ib());
        crate::bounds::lemma_total_order(a2.ib(), b2.ib(), b1.ib());
        if a.overlap_spec(b) || a.adhere_spec(b) {
            let m = Interval::span(a1.min_spec(b1), a2.max_spec(b2));
            assert forall|p: int| #[trigger] m.contains(p) <==> a.contains(p) || b.contains(p) by {
            }
            assert(m.points() =~= a.points().union(b.points()));
        }
    }
    if a is Empty {
        assert(b.points() =~= a.points().union(b.points()));
    }
    if b is Empty {
        assert(a.points() =~= a.points().union(b.points()));
    }
}

/// Lying before is transitive across a well-formed interval.
pub(crate) proof fn lemma_before_trans(x: Interval, y: Interval, z: Interval)
    requires
        x.before(y),
        y.before(z),
        y.wf(),
    ensures
        x.before(z),
{
}

/// A point of an interval lies more than one half unit below any point of an
/// interval after it.
pub(crate) proof fn lemma_before_contains(x: Interval, y: Interval, p: int, q: int)
    requires
        x.before(y),
        x.contains(p),
        y.contains(q),
    ensures
        p + 1 < q,
{
}

/// An interval that holds only points of `a` and `b`, where `x` lies before
/// `b` and before `a` unless `a` is empty, lies after `x` too.
pub(crate) proof fn lemma_before_union(x: Interval, a: Interval, b: Interval, m: Interval)
    requires
        x.before(b),
        a is Empty || x.before(a),
        m.wf(),
        !(m is Empty),
        m.points() == a.points().union(b.points()),
    ensures
        x.before(m),
{
    assert forall|p: int| #[trigger] m.contains(p) implies p > x->Range_1.last() + 1 by {
        assert(m.points().contains(p));
    }
    lemma_before_by_points(x, m);
}

/// A well-formed interval whose points all lie more than one half unit above
/// the upper end of `x` lies after `x`.
pub(crate) proof fn lemma_before_by_points(x: Interval, m: Interval)
    requires
        x matches Interval::Range(_, r) && !(r.0 is Unbound),
        m.wf(),
        !(m is Empty),
        forall|p: int| #[trigger] m.contains(p) ==> p > x->Range_1.last() + 1,
    ensures
        x.before(m),
{
    let gap = x->Range_1.last() + 1;
    match m {
        Interval::Infinity => {
            assert(m.contains(gap));
        },
        Interval::Range(m1, m2) => {
            if m1.0 is Unbound {
                let p = if m2.0 is Unbound || gap <= m2.last() {
                    gap
                } else {
                    m2.last()
                };
                assert(m.contains(p));
            } else {
                assert(m.contains(m1.first()));
            }
        },
        Interval::Empty => {},
    }
}

/// Two well-formed intervals overlap exactly when they share a point.
pub proof fn lemma_overlap_shares_point(a: Interval, b: Interval)
    requires
        a.wf(),
        b.wf(),
    ensures
        a.overlap_spec(b) <==> !a.points().disjoint(b.points()),
{
    if let (Interval::Range(a1, a2), Interval::Range(b1, b2)) = (a, b) {
        if a.overlap_spec(b) {
            let p = if !(a1.0 is Unbound) && !(b1.0 is Unbound) {
                if a1.first() < b1.first() {
                    b1.first()
                } else {
                    a1.first()
                }
            } else if !(a1.0 is Unbound) {
                a1.first()
            } else if !(b1.0 is Unbound) {
                b1.first()
            } else if !(a2.0 is Unbound) && !(b2.0 is Unbound) {
                if a2.last() < b2.last() {
                    a2.last()
                } else {
                    b2.last()
                }
            } else if !(a2.0 is Unbound) {
                a2.last()
            } else {
                b2.last()
            };
            assert(a.contains(p) && b.contains(p));
            assert(a.points().contains(p) && b.points().contains(p));
        } else {
            assert forall|p: int| !(a.points().contains(p) && b.points().contains(p)) by {
                if a.contains(p) && b.contains(p) {
                }
            }
        }
    } else if a is Empty || b is Empty {
        assert forall|p: int| !(a.points().contains(p) && b.points().contains(p)) by {}
    } else {
        let x = if a is Infinity {
            b
        } else {
            a
        };
        let p = match x {
            Interval::Range(l, r) => if !(l.0 is Unbound) {
                l.first()
            } else {
                r.last()
            },
            _ => 0,
        };
        assert(a.contains(p) && b.contains(p));
        assert(a.points().contains(p) && b.points().contains(p));
    }
}

/// The union of an interval with itself is that interval.
pub proof fn lemma_union_idempotent(a: Interval)
    requires
        a.wf(),
    ensures
        a.union_spec(a) == Union::Single(a),
{
}

/// The union of two intervals does not depend on their order.
pub proof fn lemma_union_commutative(a: Interval, b: Interval)
    requires
        a.wf(),
        b.wf(),
    ensures
        a.union_spec(b) == b.union_spec(a),
{
    if let (Interval::Range(a1, a2), Interval::Range(b1, b2)) = (a, b) {
        crate::bounds::lemma_total_order(a1.ib(), b1.ib(), a2.ib());
        crate::bounds::lemma_total_order(a2.ib(), b2.ib(), b1.ib());
        crate::bounds::lemma_total_order(b1.ib(), b2.ib(), a2.ib());
        crate::bounds::lemma_total_order(a1.ib(), a2.ib(), b2.ib());
    }
}

/// The empty interval is neutral for the union, on either side.
pub proof fn lemma_union_identity(a: Interval)
    ensures
        a.union_spec(EMPTY) == Union::Single(a),
        EMPTY.union_spec(a) == Union::Single(a),
{
}

/// The whole line absorbs any non-empty interval, on either side.
pub proof fn lemma_union_absorbs(a: Interval)
    requires
        !(a is Empty),
    ensures
        a.union_spec(INFINITY) == Union::Single(INFINITY),
        INFINITY.union_spec(a) == Union::Single(INFINITY),
{
}

} // verus!
