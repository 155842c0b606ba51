use std::cmp::Ordering;

use wrange::{Bound, Bounds};

#[test]
fn test_order() {
    let e3 = Bound::Exclusive(3);
    let e7 = Bound::Exclusive(7);
    let i3 = Bound::Inclusive(3);
    let i7 = Bound::Inclusive(7);

    assert_eq!(i3.partial_cmp(&i3), Some(Ordering::Equal));
    assert_eq!(i3.partial_cmp(&e3), None);
    assert_eq!(e3.partial_cmp(&i3), None);

    assert_eq!(e3.partial_cmp(&i7), Some(Ordering::Less));
    assert_eq!(i3.partial_cmp(&e7), Some(Ordering::Less));

    assert_eq!(e7.partial_cmp(&i3), Some(Ordering::Greater));
    assert_eq!(i7.partial_cmp(&e3), Some(Ordering::Greater));

    assert!(i3 != e3);
    assert!(!(e3 < i3));
    assert!(!(i3 < e3));
    assert!(!(e3 > i3));
    assert!(!(i3 > e3));

    assert!(e3 <= i7);
    assert!(i3 <= e7);
    assert!(i3 != e7);
}

#[test]
fn test_minmax() {
    let e3 = Bound::Exclusive(3);
    let e7 = Bound::Exclusive(7);
    let i3 = Bound::Inclusive(3);
    let i7 = Bound::Inclusive(7);

    // Inclusive always wins tie-breakers in unions
    assert_eq!(Bound::union_min(&i3, &e3), i3);
    assert_eq!(Bound::union_min(&e3, &i3), i3);

    // Exclusive always wins tie-breakers in intersections
    assert_eq!(Bound::intersection_min(&i3, &e3), e3);
    assert_eq!(Bound::intersection_min(&e3, &i3), e3);

    // Otherwise, the inner value dictates the order
    assert_eq!(Bound::union_min(&i3, &i7), i3);
    assert_eq!(Bound::union_min(&e3, &i7), e3);
    assert_eq!(Bound::intersection_min(&i3, &e7), i3);
    assert_eq!(Bound::intersection_min(&e3, &e7), e3);
}

#[test]
fn bound_test_normalization() {
    let e3 = Bound::Exclusive(3);
    let e7 = Bound::Exclusive(7);
    let i3 = Bound::Inclusive(3);
    let i7 = Bound::Inclusive(7);

    assert_eq!(Bounds(e3, i3).normalized(), Bounds(i3, i3));
    assert_eq!(Bounds(i3, e3).normalized(), Bounds(i3, i3));
    assert_eq!(Bounds(i3, e7).normalized(), Bounds(i3, e7));
    assert_eq!(Bounds(e3, i7).normalized(), Bounds(e3, i7));
}
