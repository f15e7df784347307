use interval::{Bound, Interval, Left, Right, Union, EMPTY, INFINITY};

#[test]
fn interval_test_overlap_1() {
    let a = Interval::new(Bound::Unbound, Bound::Unbound);
    let b = Interval::new(Bound::Unbound, Bound::Unbound);

    assert!(a.overlap(b));
}

#[test]
fn interval_test_overlap_2() {
    let a = Interval::new(Bound::Unbound, Bound::Unbound);
    let b = EMPTY;

    assert!(!a.overlap(b));
}

#[test]
fn interval_test_overlap_3() {
    let a = EMPTY;
    let b = Interval::new(Bound::Unbound, Bound::Unbound);

    assert!(!a.overlap(b));
}

#[test]
fn interval_test_overlap_4() {
    let a = Interval::new(Bound::Closed(42), Bound::Closed(43));
    let b = Interval::new(Bound::Unbound, Bound::Unbound);
    assert!(a.overlap(b));
}

#[test]
fn interval_test_overlap_5() {
    let a = Interval::new(Bound::Unbound, Bound::Unbound);
    let b = Interval::new(Bound::Closed(42), Bound::Closed(43));
    assert!(a.overlap(b));
}

#[test]
fn interval_test_overlap_6() {
    let a = Interval::new(Bound::Closed(42), Bound::Open(43));
    let b = Interval::new(Bound::Unbound, Bound::Unbound);
    assert!(a.overlap(b));
}

#[test]
fn interval_test_overlap_7() {
    let a = Interval::new(Bound::Unbound, Bound::Unbound);
    let b = Interval::new(Bound::Closed(42), Bound::Open(43));
    assert!(a.overlap(b));
}

#[test]
fn interval_test_overlap_8() {
    let a = Interval::new(Bound::Open(42), Bound::Open(43));
    let b = Interval::new(Bound::Unbound, Bound::Unbound);
    assert!(a.overlap(b));
}

#[test]
fn interval_test_overlap_9() {
    let a = Interval::new(Bound::Unbound, Bound::Unbound);
    let b = Interval::new(Bound::Open(42), Bound::Open(43));
    assert!(a.overlap(b));
}

#[test]
fn interval_test_overlap_10() {
    let a = Interval::new(Bound::Unbound, Bound::Open(43));
    let b = Interval::new(Bound::Unbound, Bound::Unbound);
    assert!(a.overlap(b));
}

#[test]
fn interval_test_overlap_11() {
    let a = Interval::new(Bound::Unbound, Bound::Unbound);
    let b = Interval::new(Bound::Open(42), Bound::Unbound);
    assert!(a.overlap(b));
}

#[test]
fn interval_test_overlap_12() {
    let a = EMPTY;
    let b = Interval::new(Bound::Unbound, Bound::Unbound);

    assert!(!a.overlap(b));
}

#[test]
fn interval_test_overlap_13() {
    let a = EMPTY;
    let b = EMPTY;

    assert!(!a.overlap(b));
}

#[test]
fn interval_test_overlap_14() {
    let a = Interval::new(Bound::Closed(42), Bound::Closed(52));
    let b = Interval::new(Bound::Closed(42), Bound::Closed(52));
    assert!(a.overlap(b));
}

#[test]
fn interval_test_overlap_15() {
    let a = Interval::new(Bound::Closed(42), Bound::Closed(52));
    let b = Interval::new(Bound::Open(42), Bound::Open(52));

    assert!(a.overlap(b));
}

#[test]
fn interval_test_overlap_16() {
    let a = Interval::new(Bound::Closed(42), Bound::Closed(52));
    let b = Interval::new(Bound::Open(42), Bound::Open(52));

    assert!(b.overlap(a));
}

#[test]
fn interval_test_overlap_17() {
    let a = Interval::new(Bound::Open(42), Bound::Closed(52));
    let b = Interval::new(Bound::Open(42), Bound::Open(52));

    assert!(a.overlap(b));
}

#[test]
fn interval_test_overlap_18() {
    let a = Interval::new(Bound::Open(42), Bound::Closed(52));
    let b = Interval::new(Bound::Open(42), Bound::Open(52));

    assert!(b.overlap(a));
}

#[test]
fn interval_test_overlap_19() {
    let a = Interval::new(Bound::Closed(42), Bound::Open(52));
    let b = Interval::new(Bound::Open(42), Bound::Open(52));

    assert!(a.overlap(b));
}

#[test]
fn interval_test_overlap_20() {
    let a = Interval::new(Bound::Closed(42), Bound::Open(52));
    let b = Interval::new(Bound::Open(42), Bound::Open(52));

    assert!(b.overlap(a));
}

#[test]
fn interval_test_overlap_21() {
    let a = Interval::new(Bound::Open(42), Bound::Open(52));
    let b = Interval::new(Bound::Open(42), Bound::Open(52));
    assert!(a.overlap(b));
}

#[test]
fn interval_test_overlap_22() {
    let a = Interval::new(Bound::Unbound, Bound::Closed(42));
    let b = Interval::new(Bound::Open(42), Bound::Open(52));
    assert!(!a.overlap(b));
}

#[test]
fn interval_test_overlap_23() {
    let a = Interval::new(Bound::Unbound, Bound::Open(42));
    let b = Interval::new(Bound::Open(42), Bound::Open(52));
    assert!(!a.overlap(b));
}

#[test]
fn interval_test_overlap_24() {
    let a = Interval::new(Bound::Closed(52), Bound::Unbound);
    let b = Interval::new(Bound::Open(42), Bound::Open(52));
    assert!(!a.overlap(b));
}

#[test]
fn interval_test_overlap_25() {
    let a = Interval::new(Bound::Open(52), Bound::Unbound);
    let b = Interval::new(Bound::Open(42), Bound::Open(52));
    assert!(!a.overlap(b));
}

#[test]
fn interval_test_union_1() {
    assert!(matches!(EMPTY.union(EMPTY),
        Union::Single(Interval::Empty)));
}

#[test]
fn interval_test_union_2() {
    let i = Interval::new(Bound::Open(42), Bound::Closed(43));
    assert!(match i.union(EMPTY) {
        Union::Single(Interval::Range(Left(Bound::Open(k1)), Right(Bound::Closed(k2)))) => k1 == 42 && k2 == 43,
        _ => false,
    });
}

#[test]
fn interval_test_union_3() {
    let i = Interval::new(Bound::Open(42), Bound::Closed(43));
    assert!(match EMPTY.union(i) {
        Union::Single(Interval::Range(Left(Bound::Open(k1)), Right(Bound::Closed(k2)))) => k1 == 42 && k2 == 43,
        _ => false,
    });
}

#[test]
fn interval_test_union_4() {
    assert!(matches!(EMPTY.union(EMPTY),
        Union::Single(Interval::Empty)));
}

#[test]
fn interval_test_union_5() {
    assert!(matches!(
        INFINITY.union(INFINITY),
        Union::Single(Interval::Infinity)
    ));
}

#[test]
fn test_union_6() {
    let a = Interval::new(Bound::Closed(42), Bound::Closed(52));
    let b = Interval::new(Bound::Open(42), Bound::Open(52));
    assert!(matches!(
        a.union(b),
        Union::Single(Interval::Range(Left(Bound::Closed(b1)), Right(Bound::Closed(b2)))) if b1 == 42 && b2 == 52
    ));
}

#[test]
fn test_union_7() {
    let a = Interval::new(Bound::Closed(42), Bound::Closed(52));
    let b = Interval::new(Bound::Open(42), Bound::Open(52));
    assert!(matches!(
        b.union(a),
        Union::Single(Interval::Range(Left(Bound::Closed(b1)), Right(Bound::Closed(b2)))) if b1 == 42 && b2 == 52
    ));
}

#[test]
fn test_union_8() {
    let a = Interval::new(Bound::Closed(42), Bound::Closed(52));
    let b = Interval::new(Bound::Open(22), Bound::Open(45));
    assert!(matches!(
        b.union(a),
        Union::Single(Interval::Range(Left(Bound::Open(b1)), Right(Bound::Closed(b2)))) if b1 == 22 && b2 == 52
    ));
}

#[test]
fn interval_test_build_1() {
    assert!(matches!(
        Interval::new(Bound::Unbound, Bound::Unbound),
        Interval::Infinity
    ));
}

#[test]
fn interval_test_build_2() {
    assert!(match Interval::new(Bound::Unbound, Bound::Closed(42)) {
        Interval::Range(Left(Bound::Unbound), Right(Bound::Closed(k))) => k == 42,
        _ => false,
    });
}

#[test]
fn interval_test_build_3() {
    assert!(match Interval::new(Bound::Unbound, Bound::Open(42)) {
        Interval::Range(Left(Bound::Unbound), Right(Bound::Open(k))) => k == 42,
        _ => false,
    });
}

#[test]
fn interval_test_build_4() {
    assert!(
        match Interval::new(Bound::Closed(42), Bound::Closed(43)) {
            Interval::Range(Left(Bound::Closed(k1)), Right(Bound::Closed(k2))) => k1 == 42 && k2 == 43,
            _ => false,
        }
    );
}

#[test]
fn interval_test_build_5() {
    assert_eq!(Interval::new(Bound::Closed(43), Bound::Closed(42)), EMPTY);
}

#[test]
fn interval_test_build_6() {
    assert_eq!(Interval::new(Bound::Closed(42), Bound::Open(42)), EMPTY);
}

#[test]
fn interval_test_build_7() {
    assert!(match Interval::new(Bound::Closed(42), Bound::Open(43)) {
        Interval::Range(Left(Bound::Closed(k1)), Right(Bound::Open(k2))) => k1 == 42 && k2 == 43,
        _ => false,
    });
}

#[test]
fn interval_test_build_8() {
    assert_eq!(Interval::new(Bound::Closed(43), Bound::Open(42)), EMPTY);
}

#[test]
fn interval_test_build_9() {
    assert!(match Interval::new(Bound::Closed(42), Bound::Unbound) {
        Interval::Range(Left(Bound::Closed(k)), Right(Bound::Unbound)) => k == 42,
        _ => false,
    });
}

#[test]
fn interval_test_build_10() {
    assert!(match Interval::new(Bound::Open(42), Bound::Closed(43)) {
        Interval::Range(Left(Bound::Open(k1)), Right(Bound::Closed(k2))) => k1 == 42 && k2 == 43,
        _ => false,
    });
}

#[test]
fn interval_test_build_11() {
    assert_eq!(Interval::new(Bound::Open(43), Bound::Closed(42)), EMPTY);
}

#[test]
fn interval_test_build_12() {
    assert_eq!(Interval::new(Bound::Open(42), Bound::Closed(42)), EMPTY);
}

#[test]
fn interval_test_build_13() {
    assert_eq!(Interval::new(Bound::Open(42), Bound::Open(42)), EMPTY);
}

#[test]
fn interval_test_build_14() {
    assert!(match Interval::new(Bound::Open(42), Bound::Unbound) {
        Interval::Range(Left(Bound::Open(k)), Right(Bound::Unbound)) => k == 42,
        _ => false,
    });
}

#[test]
fn interval_test_build_15() {
    assert!(match Interval::singleton(42) {
        Interval::Range(Left(Bound::Closed(k1)), Right(Bound::Closed(k2))) => k1 == k2,
        _ => false,
    });
}

#[test]
fn interval_test_build_16() {
    assert!(Interval::singleton(42).is_singleton());
}

#[test]
fn interval_test_empty_1() {
    assert!(Interval::new(Bound::Open(42), Bound::Open(42)).is_empty());
}

#[test]
fn test_empty_2() {
    assert!(EMPTY.is_empty());
}

#[test]
fn interval_test_display_1() {
    assert_eq!(EMPTY.render(), "∅");
}

#[test]
fn interval_test_display_2() {
    let inf = Interval::new(Bound::Unbound, Bound::Unbound);
    assert_eq!(inf.render(), "]-∞,+∞[");
}

#[test]
fn interval_test_display_3() {
    let sing = Interval::new(Bound::Closed(42), Bound::Closed(42));
    assert_eq!(sing.render(), "{42.00}");
}

#[test]
fn interval_test_display_4() {
    let i = Interval::new(Bound::Closed(42), Bound::Closed(43));
    assert_eq!(i.render(), "[42.00,43.00]");
}

#[test]
fn interval_test_display_5() {
    let i = Interval::new(Bound::Closed(42), Bound::Open(43));
    assert_eq!(i.render(), "[42.00,43.00[");
}

#[test]
fn interval_test_display_6() {
    let i = Interval::new(Bound::Closed(42), Bound::Unbound);
    assert_eq!(i.render(), "[42.00,+∞[");
}

#[test]
fn interval_test_display_7() {
    let i = Interval::new(Bound::Open(42), Bound::Closed(43));
    assert_eq!(i.render(), "]42.00,43.00]");
}

#[test]
fn interval_test_display_8() {
    let i = Interval::new(Bound::Open(42), Bound::Open(43));
    assert_eq!(i.render(), "]42.00,43.00[");
}

#[test]
fn interval_test_display_9() {
    let i = Interval::new(Bound::Open(42), Bound::Unbound);
    assert_eq!(i.render(), "]42.00,+∞[");
}

#[test]
fn interval_test_display_10() {
    let i = Interval::new(Bound::Unbound, Bound::Closed(42));
    assert_eq!(i.render(), "]-∞,42.00]");
}

#[test]
fn interval_test_display_11() {
    let i = Interval::new(Bound::Unbound, Bound::Open(42));
    assert_eq!(i.render(), "]-∞,42.00[");
}

#[test]
fn set_test_display_1() {
    assert_eq!(Interval::Empty.render(), "∅");
}
