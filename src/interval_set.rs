use crate::interval::{
    lemma_before_by_points, lemma_before_contains, lemma_before_trans, lemma_before_union,
    lemma_union, Interval, Union, INFINITY,
};
use crate::bound::Bound;
use crate::left::Left;
use crate::right::Right;
use vstd::prelude::*;

verus! {

/// A sequence in canonical form: well-formed, non-empty intervals, each one
/// lying before the next with a gap between them.
pub open spec fn canonical(s: Seq<Interval>) -> bool {
    &&& forall|i: int| 0 <= i < s.len() ==> (#[trigger] s[i]).wf() && !(s[i] is Empty)
    &&& forall|i: int, j: int| 0 <= i < j < s.len() ==> #[trigger] s[i].before(s[j])
}

/// Whether one of the intervals of `s` holds the point `p`.
pub open spec fn covers(s: Seq<Interval>, p: int) -> bool {
    exists|i: int| 0 <= i < s.len() && #[trigger] s[i].contains(p)
}

/// The points that the intervals of `s` hold.
pub open spec fn points(s: Seq<Interval>) -> Set<int> {
    Set::new(|p: int| covers(s, p))
}

/// The canonical sequence that holds exactly the points `pts`, where one
/// does (it is then the only one: see `lemma_canonical_unique`).
pub open spec fn canonical_form(pts: Set<int>) -> Seq<Interval> {
    choose|t: Seq<Interval>| canonical(t) && points(t) == pts
}

/// The canonical sequence that holds the points of `s` and those of `a`.
pub open spec fn inserted(s: Seq<Interval>, a: Interval) -> Seq<Interval> {
    canonical_form(points(s).union(a.points()))
}

/// A set of points of the line, held as the intervals of a canonical
/// sequence.
#[derive(Debug, Clone)]
pub struct IntervalSet {
    union: Vec<Interval>,
}

impl View for IntervalSet {
    type V = Seq<Interval>;

    closed spec fn view(&self) -> Seq<Interval> {
        self.union@
    }
}

impl IntervalSet {
    /// The invariant: the intervals are in canonical form.
    pub open spec fn wf(&self) -> bool {
        canonical(self@)
    }

    /// The points that the set holds, in the half units of `Left::first`.
    pub open spec fn points(&self) -> Set<int> {
        points(self@)
    }

    /// The empty set.
    pub fn new() -> (r: IntervalSet)
        ensures
            r@ == Seq::<Interval>::empty(),
            r.wf(),
    {
        IntervalSet { union: Vec::new() }
    }

    /// The intervals of the set, in order.
    pub fn segments(&self) -> (r: &[Interval])
        ensures
            r@ == self@,
    {
        self.union.as_slice()
    }

    /// The set that holds the points of this one and those of `interval`.
    ///
    /// One pass over the intervals in order: an interval lying before the
    /// new one is kept, one that meets it is merged into it, and the first one
    /// lying after it ends the pass.
    pub fn union_interval(&self, interval: &Interval) -> (r: IntervalSet)
        requires
            self.wf(),
            interval.wf(),
        ensures
            r.wf(),
            r.points() == self.points().union(interval.points()),
            r@ == inserted(self@, *interval),
    {
        let mut res = IntervalSet::new();
        let mut current = *interval;
        let n = self.union.len();
        let mut i: usize = 0;
        proof {
            assert(self@.subrange(0, n as int) =~= self@);
            assert(points(res@) =~= Set::<int>::empty());
            assert(points(res@).union(current.points()).union(points(self@)) =~= self.points().union(
                interval.points(),
            ));
        }
        while i < n
            invariant
                n == self@.len(),
                0 <= i <= n,
                canonical(self@),
                canonical(res@),
                current.wf(),
                forall|k: int|
                    0 <= k < res@.len() && !(current is Empty) ==> #[trigger] res@[k].before(
                        current,
                    ),
                forall|k: int, j: int|
                    0 <= k < res@.len() && i <= j < n ==> #[trigger] res@[k].before(self@[j]),
                points(res@).union(current.points()).union(
                    points(self@.subrange(i as int, n as int)),
                ) == self.points().union(interval.points()),
            decreases n - i,
        {
            let segment = self.union[i];
            proof {
                lemma_points_drop(self@, i as int);
            }
            match current.union(segment) {
                Union::Couple(a, _) => {
                    if a == current {
                        proof {
                            lemma_points_push(res@, current);
                            assert(points(res@.push(current)).union(
                                points(self@.subrange(i as int, n as int)),
                            ) =~= self.points().union(interval.points()));
                            assert forall|j: int| i <= j < n implies #[trigger] current.before(
                                self@[j],
                            ) by {
                                if j > i {
                                    lemma_before_trans(current, segment, self@[j]);
                                }
                            }
                        }
                        res.union.push(current);
                        let mut j: usize = i;
                        while j < n
                            invariant
                                n == self@.len(),
                                i <= j <= n,
                                canonical(self@),
                                canonical(res@),
                                res@.len() > 0,
                                forall|k: int, l: int|
                                    0 <= k < res@.len() && j <= l < n ==> #[trigger] res@[k].before(
                                        self@[l],
                                    ),
                                points(res@).union(points(self@.subrange(j as int, n as int)))
                                    == self.points().union(interval.points()),
                            decreases n - j,
                        {
                            proof {
                                lemma_points_drop(self@, j as int);
                                lemma_points_push(res@, self@[j as int]);
                                assert(points(res@.push(self@[j as int])).union(
                                    points(self@.subrange(j + 1, n as int)),
                                ) =~= self.points().union(interval.points()));
                            }
                            res.union.push(self.union[j]);
                            j += 1;
                        }
                        proof {
                            lemma_points_empty(self@.subrange(n as int, n as int));
                            assert(points(res@) =~= self.points().union(interval.points()));
                            lemma_canonical_form(res@);
                        }
                        return res;
                    } else {
                        proof {
                            lemma_points_push(res@, segment);
                            assert(points(res@.push(segment)).union(current.points()).union(
                                points(self@.subrange(i + 1, n as int)),
                            ) =~= self.points().union(interval.points()));
                        }
                        res.union.push(segment);
                    }
                },
                Union::Single(m) => {
                    proof {
                        assert forall|k: int| 0 <= k < res@.len() implies #[trigger] res@[k].before(
                            m,
                        ) by {
                            lemma_before_union(res@[k], current, segment, m);
                        }
                    }
                    proof {
                        assert(points(res@).union(m.points()).union(
                            points(self@.subrange(i + 1, n as int)),
                        ) =~= self.points().union(interval.points()));
                    }
                    current = m;
                },
            }
            i += 1;
        }
        proof {
            lemma_points_empty(self@.subrange(n as int, n as int));
            lemma_points_push(res@, current);
            if current is Empty {
                assert(current.points() =~= Set::<int>::empty());
            }
            assert(points(res@).union(current.points()) =~= self.points().union(interval.points()));
        }
        if !current.is_empty() {
            res.union.push(current);
        }
        proof {
            lemma_canonical_form(res@);
        }
        res
    }

    /// The set that holds the points of all the given intervals.
    pub fn from(array: &[Interval]) -> (r: IntervalSet)
        requires
            forall|k: int| 0 <= k < array@.len() ==> #[trigger] array@[k].wf(),
        ensures
            r.wf(),
            r.points() == points(array@),
            r@ == canonical_form(points(array@)),
    {
        let mut res = IntervalSet::new();
        let mut k: usize = 0;
        proof {
            lemma_points_empty(array@.subrange(0, 0));
            lemma_points_empty(res@);
        }
        while k < array.len()
            invariant
                0 <= k <= array@.len(),
                forall|k: int| 0 <= k < array@.len() ==> #[trigger] array@[k].wf(),
                res.wf(),
                res.points() == points(array@.subrange(0, k as int)),
            decreases array@.len() - k,
        {
            proof {
                lemma_points_push(array@.subrange(0, k as int), array@[k as int]);
                assert(array@.subrange(0, k as int).push(array@[k as int]) =~= array@.subrange(
                    0,
                    k + 1,
                ));
            }
            res = res.union_interval(&array[k]);
            k += 1;
        }
        proof {
            assert(array@.subrange(0, k as int) =~= array@);
            lemma_canonical_form(res@);
        }
        res
    }

    /// The set that holds the points of this one and those of `intervals`.
    pub fn union_intervals(&self, intervals: &IntervalSet) -> (r: IntervalSet)
        requires
            self.wf(),
            intervals.wf(),
        ensures
            r.wf(),
            r.points() == self.points().union(intervals.points()),
            r@ == canonical_form(self.points().union(intervals.points())),
    {
        let mut res = IntervalSet { union: self.union.clone() };
        let n = intervals.union.len();
        let mut k: usize = 0;
        proof {
            lemma_points_empty(intervals@.subrange(0, 0));
            assert(res@ =~= self@);
            assert(res.points() =~= self.points().union(points(intervals@.subrange(0, 0))));
        }
        while k < n
            invariant
                n == intervals@.len(),
                0 <= k <= n,
                canonical(intervals@),
                res.wf(),
                res.points() == self.points().union(points(intervals@.subrange(0, k as int))),
            decreases n - k,
        {
            proof {
                lemma_points_push(intervals@.subrange(0, k as int), intervals@[k as int]);
                assert(intervals@.subrange(0, k as int).push(intervals@[k as int])
                    =~= intervals@.subrange(0, k + 1));
            }
            res = res.union_interval(&intervals.union[k]);
            proof {
                assert(res.points() =~= self.points().union(
                    points(intervals@.subrange(0, k + 1)),
                ));
            }
            k += 1;
        }
        proof {
            assert(intervals@.subrange(0, k as int) =~= intervals@);
            lemma_canonical_form(res@);
        }
        res
    }

    /// Whether the set holds no interval.
    pub fn is_empty(&self) -> (r: bool)
        ensures
            r == (self@.len() == 0),
    {
        self.union.len() == 0
    }

    /// Whether the set is the whole line.
    pub fn is_infinity(&self) -> (r: bool)
        ensures
            r == (self@.len() == 1 && self@[0] == INFINITY),
    {
        self.union.len() == 1 && self.union[0] == INFINITY
    }
}

impl PartialEq for IntervalSet {
    fn eq(&self, other: &IntervalSet) -> (r: bool) {
        if self.union.len() != other.union.len() {
            return false;
        }
        let mut i: usize = 0;
        while i < self.union.len()
            invariant
                self@.len() == other@.len(),
                0 <= i <= self@.len(),
                forall|k: int| 0 <= k < i ==> self@[k] == other@[k],
            decreases self@.len() - i,
        {
            if self.union[i] != other.union[i] {
                return false;
            }
            i += 1;
        }
        proof {
            assert(self@ =~= other@);
        }
        true
    }
}

impl vstd::std_specs::cmp::PartialEqSpecImpl for IntervalSet {
    open spec fn obeys_eq_spec() -> bool {
        true
    }

    open spec fn eq_spec(&self, other: &IntervalSet) -> bool {
        self@ == other@
    }
}

/// The points of a sequence with one interval more.
proof fn lemma_points_push(s: Seq<Interval>, x: Interval)
    ensures
        points(s.push(x)) == points(s).union(x.points()),
{
    assert forall|p: int| #[trigger] covers(s.push(x), p) <==> covers(s, p) || x.contains(p) by {
        if covers(s, p) {
            let k = choose|k: int| 0 <= k < s.len() && #[trigger] s[k].contains(p);
            assert(s.push(x)[k] == s[k]);
        }
        if x.contains(p) {
            assert(s.push(x)[s.len() as int] == x);
        }
        if covers(s.push(x), p) {
            let k = choose|k: int| 0 <= k < s.push(x).len() && #[trigger] s.push(x)[k].contains(p);
            if k < s.len() {
                assert(s[k] == s.push(x)[k]);
            }
        }
    }
    assert(points(s.push(x)) =~= points(s).union(x.points()));
}

/// The points of a suffix of a sequence: those of its first interval and
/// those of the rest.
proof fn lemma_points_drop(s: Seq<Interval>, i: int)
    requires
        0 <= i < s.len(),
    ensures
        points(s.subrange(i, s.len() as int)) == s[i].points().union(
            points(s.subrange(i + 1, s.len() as int)),
        ),
{
    let t = s.subrange(i, s.len() as int);
    let u = s.subrange(i + 1, s.len() as int);
    assert forall|p: int| #[trigger] covers(t, p) <==> s[i].contains(p) || covers(u, p) by {
        if s[i].contains(p) {
            assert(t[0] == s[i]);
        }
        if covers(u, p) {
            let k = choose|k: int| 0 <= k < u.len() && #[trigger] u[k].contains(p);
            assert(t[k + 1] == u[k]);
        }
        if covers(t, p) {
            let k = choose|k: int| 0 <= k < t.len() && #[trigger] t[k].contains(p);
            if k > 0 {
                assert(u[k - 1] == t[k]);
            }
        }
    }
    assert(points(t) =~= s[i].points().union(points(u)));
}

/// An empty sequence holds no point.
proof fn lemma_points_empty(s: Seq<Interval>)
    requires
        s.len() == 0,
    ensures
        points(s) == Set::<int>::empty(),
{
    assert(points(s) =~= Set::<int>::empty());
}

/// Every point of a canonical sequence lies above the lower end of its
/// first interval.
proof fn lemma_floor(s: Seq<Interval>, p: int)
    requires
        canonical(s),
        covers(s, p),
    ensures
        s[0].above_lower(p),
{
    let k = choose|k: int| 0 <= k < s.len() && #[trigger] s[k].contains(p);
    if k > 0 {
        assert(s[0].before(s[k]));
        assert(s[0].wf());
    }
}

/// Just above a bounded first interval of a canonical sequence lies a point
/// that the sequence does not hold.
proof fn lemma_gap(s: Seq<Interval>, g: int)
    requires
        canonical(s),
        s.len() > 0,
        s[0] matches Interval::Range(_, r) && !(r.0 is Unbound) && g == r.last() + 1,
    ensures
        !covers(s, g),
{
    if covers(s, g) {
        let k = choose|k: int| 0 <= k < s.len() && #[trigger] s[k].contains(g);
        if k > 0 {
            assert(s[0].before(s[k]));
        }
    }
}

/// A point of a well-formed interval that is not empty.
proof fn lemma_some_point(x: Interval) -> (p: int)
    requires
        x.wf(),
        !(x is Empty),
    ensures
        x.contains(p),
{
    match x {
        Interval::Range(l, r) => {
            if !(l.0 is Unbound) {
                l.first()
            } else if !(r.0 is Unbound) {
                r.last()
            } else {
                0
            }
        },
        _ => 0,
    }
}

/// The lower end of the first interval of a canonical sequence is fixed by
/// the points of the sequence: it admits at least what that of another such
/// sequence with the same points admits.
proof fn lemma_lower(s1: Seq<Interval>, s2: Seq<Interval>, q: int)
    requires
        canonical(s1),
        canonical(s2),
        s1.len() > 0,
        s2.len() > 0,
        points(s1) == points(s2),
        s2[0].above_lower(q),
    ensures
        s1[0].above_lower(q),
{
    let y = s2[0];
    assert(y.wf());
    let c = if y.below_upper(q) {
        q
    } else {
        y->Range_1.last()
    };
    assert(y.contains(c));
    assert(covers(s2, c));
    assert(points(s2).contains(c));
    assert(covers(s1, c));
    lemma_floor(s1, c);
}

/// The upper end of the first interval of a canonical sequence is fixed by
/// the points of the sequence, once the lower ends agree.
proof fn lemma_upper(s1: Seq<Interval>, s2: Seq<Interval>, q: int)
    requires
        canonical(s1),
        canonical(s2),
        s1.len() > 0,
        s2.len() > 0,
        points(s1) == points(s2),
        forall|p: int| #[trigger] s1[0].above_lower(p) == s2[0].above_lower(p),
        s2[0].below_upper(q),
    ensures
        s1[0].below_upper(q),
{
    let x = s1[0];
    let y = s2[0];
    assert(x.wf() && y.wf());
    if !x.below_upper(q) {
        let g = x->Range_1.last() + 1;
        lemma_gap(s1, g);
        assert(x.above_lower(g));
        assert(y.above_lower(g));
        assert(y.contains(g));
        assert(covers(s2, g));
        assert(points(s2).contains(g));
    }
}

/// Two canonical sequences with the same points start with the same
/// interval.
proof fn lemma_first_equal(s1: Seq<Interval>, s2: Seq<Interval>)
    requires
        canonical(s1),
        canonical(s2),
        s1.len() > 0,
        s2.len() > 0,
        points(s1) == points(s2),
    ensures
        s1[0] == s2[0],
{
    let x = s1[0];
    let y = s2[0];
    assert(x.wf() && y.wf() && !(x is Empty) && !(y is Empty));
    assert forall|p: int| #[trigger] x.above_lower(p) == y.above_lower(p) by {
        if y.above_lower(p) {
            lemma_lower(s1, s2, p);
        }
        if x.above_lower(p) {
            lemma_lower(s2, s1, p);
        }
    }
    assert forall|p: int| #[trigger] x.below_upper(p) == y.below_upper(p) by {
        if y.below_upper(p) {
            lemma_upper(s1, s2, p);
        }
        if x.below_upper(p) {
            lemma_upper(s2, s1, p);
        }
    }
    lemma_ends_determine(x, y);
}

/// A well-formed interval that is not empty is fixed by the points above its
/// lower end and below its upper end.
proof fn lemma_ends_determine(x: Interval, y: Interval)
    requires
        x.wf(),
        y.wf(),
        !(x is Empty),
        !(y is Empty),
        forall|p: int| #![trigger x.above_lower(p)] #![trigger y.above_lower(p)]
            x.above_lower(p) == y.above_lower(p),
        forall|p: int| #![trigger x.below_upper(p)] #![trigger y.below_upper(p)]
            x.below_upper(p) == y.below_upper(p),
    ensures
        x == y,
{
    match (x, y) {
        (Interval::Range(l1, r1), Interval::Range(l2, r2)) => {
            if !(l1.0 is Unbound) {
                assert(x.above_lower(l1.first()));
                assert(!x.above_lower(l1.first() - 1));
            }
            if !(l2.0 is Unbound) {
                assert(y.above_lower(l2.first()));
                assert(!y.above_lower(l2.first() - 1));
            }
            if !(r1.0 is Unbound) {
                assert(x.below_upper(r1.last()));
                assert(!x.below_upper(r1.last() + 1));
            }
            if !(r2.0 is Unbound) {
                assert(y.below_upper(r2.last()));
                assert(!y.below_upper(r2.last() + 1));
            }
            lemma_left_by_first(l1, l2);
            lemma_right_by_last(r1, r2);
        },
        (Interval::Range(l1, r1), _) => {
            if !(l1.0 is Unbound) {
                assert(!x.above_lower(l1.first() - 1));
            } else {
                assert(!x.below_upper(r1.last() + 1));
            }
        },
        (_, Interval::Range(l2, r2)) => {
            if !(l2.0 is Unbound) {
                assert(!y.above_lower(l2.first() - 1));
            } else {
                assert(!y.below_upper(r2.last() + 1));
            }
        },
        _ => {},
    }
}

/// A bounded left side is fixed by the first point that it admits.
proof fn lemma_left_by_first(l1: Left, l2: Left)
    requires
        l1.0 is Unbound <==> l2.0 is Unbound,
        !(l1.0 is Unbound) ==> l1.first() == l2.first(),
    ensures
        l1 == l2,
{
    match (l1.0, l2.0) {
        (Bound::Open(a), Bound::Closed(b)) => {
            assert(2 * a + 1 != 2 * b) by (nonlinear_arith);
        },
        (Bound::Closed(a), Bound::Open(b)) => {
            assert(2 * a != 2 * b + 1) by (nonlinear_arith);
        },
        _ => {},
    }
}

/// A bounded right side is fixed by the last point that it admits.
proof fn lemma_right_by_last(r1: Right, r2: Right)
    requires
        r1.0 is Unbound <==> r2.0 is Unbound,
        !(r1.0 is Unbound) ==> r1.last() == r2.last(),
    ensures
        r1 == r2,
{
    match (r1.0, r2.0) {
        (Bound::Open(a), Bound::Closed(b)) => {
            assert(2 * a - 1 != 2 * b) by (nonlinear_arith);
        },
        (Bound::Closed(a), Bound::Open(b)) => {
            assert(2 * a != 2 * b - 1) by (nonlinear_arith);
        },
        _ => {},
    }
}

/// A canonical sequence is the canonical form of its points.
pub proof fn lemma_canonical_form(s: Seq<Interval>)
    requires
        canonical(s),
    ensures
        canonical_form(points(s)) == s,
{
    let t = canonical_form(points(s));
    assert(canonical(s) && points(s) == points(s));
    lemma_canonical_unique(t, s);
}

/// Inserting into a canonical sequence gives a canonical sequence that holds
/// the points of both.
pub proof fn lemma_inserted(s: Seq<Interval>, a: Interval)
    requires
        canonical(s),
        a.wf(),
    ensures
        canonical(inserted(s, a)),
        points(inserted(s, a)) == points(s).union(a.points()),
{
    let t = lemma_insert_exists(s, a);
    lemma_canonical_form(t);
}

/// Inserting an interval twice leaves the set as the first insertion left
/// it.
pub proof fn lemma_insert_twice(s: Seq<Interval>, a: Interval)
    requires
        canonical(s),
        a.wf(),
    ensures
        inserted(inserted(s, a), a) == inserted(s, a),
{
    lemma_inserted(s, a);
    let once = inserted(s, a);
    assert(points(once).union(a.points()) =~= points(once));
    lemma_canonical_form(once);
}

/// The order of insertions does not matter: inserting `a` then `b` gives the
/// same set as inserting `b` then `a`.
pub proof fn lemma_insert_order(s: Seq<Interval>, a: Interval, b: Interval)
    requires
        canonical(s),
        a.wf(),
        b.wf(),
    ensures
        inserted(inserted(s, a), b) == inserted(inserted(s, b), a),
{
    lemma_inserted(s, a);
    lemma_inserted(s, b);
    assert(points(inserted(s, a)).union(b.points()) =~= points(inserted(s, b)).union(
        a.points(),
    ));
}

/// No two intervals of a canonical sequence overlap or touch, and they come
/// in the order of their left sides.
pub proof fn lemma_canonical_apart(s: Seq<Interval>, i: int, j: int)
    requires
        canonical(s),
        0 <= i < j < s.len(),
    ensures
        !s[i].overlap_spec(s[j]),
        !s[i].adhere_spec(s[j]),
        s[i] matches Interval::Range(l1, _) && s[j] matches Interval::Range(l2, _)
            && l1.ib().precedes(l2.ib()),
{
    assert(s[i].before(s[j]));
    assert(s[i].wf());
}

/// A canonical sequence that holds the whole line holds nothing else.
pub proof fn lemma_canonical_infinity(s: Seq<Interval>, i: int)
    requires
        canonical(s),
        0 <= i < s.len(),
        s[i] is Infinity,
    ensures
        s.len() == 1,
{
    if s.len() > 1 {
        if i == 0 {
            assert(s[0].before(s[1]));
        } else {
            assert(s[0].before(s[i]));
        }
    }
}

/// The canonical form of a set of points is unique: two canonical sequences
/// that hold the same points are the same sequence. So the set that a series
/// of insertions builds depends only on the points inserted, in whatever
/// order they come.
pub proof fn lemma_canonical_unique(s1: Seq<Interval>, s2: Seq<Interval>)
    requires
        canonical(s1),
        canonical(s2),
        points(s1) == points(s2),
    ensures
        s1 == s2,
    decreases s1.len(),
{
    if s1.len() == 0 || s2.len() == 0 {
        if s2.len() > 0 {
            let p = lemma_some_point(s2[0]);
            assert(covers(s2, p));
            assert(points(s2).contains(p));
            lemma_points_empty(s1);
        }
        if s1.len() > 0 {
            let p = lemma_some_point(s1[0]);
            assert(covers(s1, p));
            assert(points(s1).contains(p));
            lemma_points_empty(s2);
        }
        assert(s1 =~= s2);
    } else {
        lemma_first_equal(s1, s2);
        let x = s1[0];
        let t1 = s1.subrange(1, s1.len() as int);
        let t2 = s2.subrange(1, s2.len() as int);
        lemma_points_drop(s1, 0);
        lemma_points_drop(s2, 0);
        assert(s1.subrange(0, s1.len() as int) =~= s1);
        assert(s2.subrange(0, s2.len() as int) =~= s2);
        lemma_apart(s1, x);
        lemma_apart(s2, x);
        assert(points(t1) =~= points(s1).difference(x.points()));
        assert(points(t2) =~= points(s2).difference(x.points()));
        lemma_canonical_tail(s1);
        lemma_canonical_tail(s2);
        lemma_canonical_unique(t1, t2);
        assert forall|i: int| 0 <= i < s1.len() implies s1[i] == s2[i] by {
            if i > 0 {
                assert(s1[i] == t1[i - 1]);
                assert(s2[i] == t2[i - 1]);
            }
        }
        assert(s1 =~= s2);
    }
}

/// What follows the first interval of a canonical sequence is canonical.
proof fn lemma_canonical_tail(s: Seq<Interval>)
    requires
        canonical(s),
        s.len() > 0,
    ensures
        canonical(s.subrange(1, s.len() as int)),
{
    let t = s.subrange(1, s.len() as int);
    assert forall|i: int, j: int| 0 <= i < j < t.len() implies #[trigger] t[i].before(t[j]) by {
        assert(s[i + 1].before(s[j + 1]));
    }
    assert forall|i: int| 0 <= i < t.len() implies (#[trigger] t[i]).wf() && !(t[i] is Empty) by {
        assert(s[i + 1].wf());
    }
}

/// The points of a sequence that starts with `x`: those of `x` and those of
/// the rest.
proof fn lemma_points_cons(x: Interval, t: Seq<Interval>)
    ensures
        points(seq![x] + t) == x.points().union(points(t)),
{
    let u = seq![x] + t;
    lemma_points_drop(u, 0);
    assert(u.subrange(0, u.len() as int) =~= u);
    assert(u.subrange(1, u.len() as int) =~= t);
}

/// A canonical sequence that holds the points of a canonical sequence `s` and
/// of an interval `a`: there is always one.
proof fn lemma_insert_exists(s: Seq<Interval>, a: Interval) -> (t: Seq<Interval>)
    requires
        canonical(s),
        a.wf(),
    ensures
        canonical(t),
        points(t) == points(s).union(a.points()),
    decreases s.len(),
{
    if s.len() == 0 {
        lemma_points_empty(s);
        if a is Empty {
            let t = Seq::<Interval>::empty();
            lemma_points_empty(t);
            assert(a.points() =~= Set::<int>::empty());
            assert(points(s).union(a.points()) =~= Set::<int>::empty());
            t
        } else {
            let t = seq![a];
            lemma_points_cons(a, Seq::<Interval>::empty());
            lemma_points_empty(Seq::<Interval>::empty());
            assert(seq![a] + Seq::<Interval>::empty() =~= t);
            assert(points(t) =~= points(s).union(a.points()));
            t
        }
    } else {
        let x = s[0];
        let rest = s.subrange(1, s.len() as int);
        lemma_canonical_tail(s);
        lemma_points_drop(s, 0);
        assert(s.subrange(0, s.len() as int) =~= s);
        assert(seq![x] + rest =~= s);
        lemma_union(a, x);
        match a.union_spec(x) {
            Union::Single(m) => {
                let t = lemma_insert_exists(rest, m);
                assert(points(t) =~= points(s).union(a.points()));
                t
            },
            Union::Couple(p, q) => {
                if p == a {
                    let t = seq![a] + s;
                    lemma_points_cons(a, s);
                    assert forall|i: int, j: int| 0 <= i < j < t.len() implies #[trigger] t[i].before(
                        t[j],
                    ) by {
                        if i == 0 {
                            if j > 1 {
                                assert(s[0].before(s[j - 1]));
                                lemma_before_trans(a, x, s[j - 1]);
                            }
                        } else {
                            assert(s[i - 1].before(s[j - 1]));
                        }
                    }
                    assert forall|i: int| 0 <= i < t.len() implies (#[trigger] t[i]).wf() && !(
                    t[i] is Empty) by {
                        if i > 0 {
                            assert(s[i - 1].wf());
                        }
                    }
                    assert(points(t) =~= points(s).union(a.points()));
                    t
                } else {
                    let r = lemma_insert_exists(rest, a);
                    let t = seq![x] + r;
                    lemma_points_cons(x, r);
                    assert forall|k: int| 0 <= k < r.len() implies #[trigger] x.before(r[k]) by {
                        assert(r[k].wf());
                        assert forall|p: int| #[trigger] r[k].contains(p) implies p > x->Range_1.last()
                            + 1 by {
                            assert(covers(r, p));
                            assert(points(r).contains(p));
                            if a.contains(p) {
                                lemma_before_contains(x, a, x->Range_1.last(), p);
                            } else {
                                assert(points(rest).contains(p));
                                let i = choose|i: int| 0 <= i < rest.len() && #[trigger] rest[i].contains(p);
                                assert(s[0].before(s[i + 1]));
                                lemma_before_contains(x, s[i + 1], x->Range_1.last(), p);
                            }
                        }
                        lemma_before_by_points(x, r[k]);
                    }
                    assert forall|i: int, j: int| 0 <= i < j < t.len() implies #[trigger] t[i].before(
                        t[j],
                    ) by {
                        if i == 0 {
                            assert(x.before(r[j - 1]));
                        } else {
                            assert(r[i - 1].before(r[j - 1]));
                        }
                    }
                    assert forall|i: int| 0 <= i < t.len() implies (#[trigger] t[i]).wf() && !(
                    t[i] is Empty) by {
                        if i > 0 {
                            assert(r[i - 1].wf());
                        }
                    }
                    assert(points(t) =~= points(s).union(a.points()));
                    t
                }
            },
        }
    }
}

/// The intervals after the first one of a canonical sequence hold none of its
/// points.
proof fn lemma_apart(s: Seq<Interval>, x: Interval)
    requires
        canonical(s),
        s.len() > 0,
        s[0] == x,
    ensures
        points(s.subrange(1, s.len() as int)).disjoint(x.points()),
{
    let t = s.subrange(1, s.len() as int);
    assert forall|p: int| points(t).contains(p) implies !x.points().contains(p) by {
        assert(covers(t, p));
        let k = choose|k: int| 0 <= k < t.len() && #[trigger] t[k].contains(p);
        assert(s[0].before(s[k + 1]));
        if x.contains(p) {
            lemma_before_contains(x, s[k + 1], p, p);
        }
    }
}

} // verus!
