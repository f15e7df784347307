use interval::Bound::Closed;
use interval::{Interval, IntervalSet, EMPTY, INFINITY};

#[test]
fn interval_set_test_empty_1() {
    let e = IntervalSet::new();
    assert!(e.is_empty());
}

#[test]
fn test_union_empty_1() {
    let a = IntervalSet::new();
    let b = a.union_interval(&EMPTY);
    assert!(b.is_empty());
}

#[test]
fn test_union_empty_2() {
    let a = IntervalSet::new();
    let b = a.union_interval(&EMPTY);
    assert!(b.is_empty());
}

#[test]
fn test_union_empty_3() {
    let a = IntervalSet::new();
    let b = Interval::new(Closed(42), Closed(43));
    let c = a.union_interval(&b);
    assert!(!c.is_empty());
    assert_eq!(c.segments()[0], b);
}

#[test]
fn test_union_empty_4() {
    let a = IntervalSet::new();
    let b = Interval::new(Closed(42), Closed(43));
    let c = a.union_interval(&b);
    assert!(!c.is_empty());
    assert_eq!(c.segments()[0], b);
}

#[test]
fn test_union_infinity_1() {
    let a = IntervalSet::new();
    let b = INFINITY;
    let c = a.union_interval(&b);
    assert!(c.is_infinity());
}

#[test]
fn test_union_infinity_2() {
    let a = IntervalSet::new().union_interval(&INFINITY);
    let b = Interval::new(Closed(42), Closed(43));

    assert!(a.union_interval(&b).is_infinity());
}
