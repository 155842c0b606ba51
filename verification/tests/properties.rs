use wrange::ascii::ascii;
use wrange::Bound::{Exclusive, Inclusive};
use wrange::{Bounds, Wrange, WrangeSet};

#[test]
fn symmetry_concrete() {
    let a = Wrange::new(Inclusive(12), Inclusive(3));
    let b = Wrange::new(Inclusive(1), Inclusive(7));
    assert_eq!(
        Wrange::intersection(&a, &b).to_vec(),
        Wrange::intersection(&b, &a).to_vec(),
    );
    let c = Wrange::new(Exclusive(5), Inclusive(5));
    assert_eq!(
        Wrange::intersection(&c, &b).normalized(),
        Wrange::intersection(&b, &c).normalized(),
    );
}

#[test]
fn full_is_identity() {
    let w = Wrange::new(Exclusive(4), Inclusive(9));
    assert_eq!(Wrange::intersection(&Wrange::Full, &w).to_vec(), vec![w]);
    assert_eq!(Wrange::intersection(&w, &Wrange::Full).to_vec(), vec![w]);
}

#[test]
fn empty_annihilates() {
    let w = Wrange::new(Inclusive(200), Inclusive(10));
    assert_eq!(
        Wrange::intersection(&Wrange::Empty, &w).to_vec(),
        vec![Wrange::Empty]
    );
    assert_eq!(
        Wrange::intersection(&w, &Wrange::Empty).to_vec(),
        vec![Wrange::Empty]
    );
}

#[test]
fn normalization_idempotent_concrete() {
    let samples = vec![
        Wrange::Empty,
        Wrange::Full,
        Wrange::Convergent(Bounds(Exclusive(3), Inclusive(3))),
        Wrange::Convergent(Bounds(Exclusive(3), Exclusive(3))),
        Wrange::Divergent(Bounds(Inclusive(5), Exclusive(5))),
        Wrange::Divergent(Bounds(Inclusive(5), Inclusive(5))),
        Wrange::new_inclusive(2, 9),
    ];
    for w in samples {
        assert_eq!(w.normalized().normalized(), w.normalized());
    }
}

#[test]
fn degenerate_collapse() {
    assert_eq!(Wrange::new_exclusive(9, 9).normalized(), Wrange::Empty);
    assert_eq!(
        Wrange::Divergent(Bounds(Inclusive(9), Inclusive(9))).normalized(),
        Wrange::Full,
    );
}

#[test]
fn exclusive_wins_ties() {
    let point = Wrange::new_inclusive(3, 3);
    let open_point = Wrange::new_exclusive(3, 3);
    assert_eq!(
        Wrange::intersection(&point, &open_point).normalized().to_vec(),
        vec![Wrange::Empty]
    );
    assert_eq!(
        Wrange::intersection(&point, &point).normalized().to_vec(),
        vec![point]
    );
    // the same at the top of the byte domain
    let top = Wrange::new_inclusive(255, 255);
    let open_top = Wrange::new_exclusive(255, 255);
    assert_eq!(
        Wrange::intersection(&top, &open_top).normalized().to_vec(),
        vec![Wrange::Empty]
    );
}

#[test]
fn scenario_convergent_inside() {
    let a = Wrange::new_inclusive(2, 6);
    let b = Wrange::new_inclusive(0, 7);
    assert_eq!(
        Wrange::intersection(&a, &b).normalized().to_vec(),
        vec![Wrange::new_inclusive(2, 6)]
    );
}

#[test]
fn scenario_wrap_misses_interior() {
    let a = Wrange::new(Inclusive(5), Inclusive(2));
    let b = Wrange::new_inclusive(3, 4);
    assert_eq!(
        Wrange::intersection(&a, &b).normalized().to_vec(),
        vec![Wrange::Empty]
    );
}

#[test]
fn scenario_divergent_poles() {
    let a = Wrange::Divergent(Bounds(Inclusive(0), Inclusive(3)));
    let b = Wrange::Divergent(Bounds(Inclusive(2), Inclusive(6)));
    assert_eq!(
        Wrange::intersection(&a, &b).normalized().to_vec(),
        vec![Wrange::new_inclusive(2, 3)]
    );
}

#[test]
fn scenario_convergent_spans_both_poles() {
    let a = Wrange::Divergent(Bounds(Inclusive(1), Inclusive(6)));
    let b = Wrange::new_inclusive(0, 7);
    assert_eq!(
        Wrange::intersection(&a, &b).normalized().to_vec(),
        vec![Wrange::new_inclusive(0, 6), Wrange::new_inclusive(1, 7)]
    );
}

#[test]
fn scenario_set_intersection_distributes() {
    let a: WrangeSet = vec![Wrange::new_inclusive(0, 5), Wrange::new_inclusive(8, 10)].into();
    let b: WrangeSet = Wrange::new_inclusive(3, 9).into();
    let expected: WrangeSet =
        vec![Wrange::new_inclusive(3, 5), Wrange::new_inclusive(8, 9)].into();
    assert_eq!(WrangeSet::intersection(&a, &b).normalized(), expected);
}

#[test]
fn set_union_concatenates() {
    let a: WrangeSet = vec![Wrange::new_inclusive(0, 5)].into();
    let b: WrangeSet = vec![Wrange::new_inclusive(4, 9), Wrange::Empty].into();
    assert_eq!(
        WrangeSet::union(&a, &b).to_vec(),
        vec![
            Wrange::new_inclusive(0, 5),
            Wrange::new_inclusive(4, 9),
            Wrange::Empty
        ]
    );
}

#[test]
fn set_intersection_of_memberless_operand() {
    let none: WrangeSet = vec![].into();
    let some: WrangeSet = Wrange::Full.into();
    assert_eq!(
        WrangeSet::intersection(&none, &some).to_vec(),
        vec![Wrange::Empty]
    );
    assert_eq!(
        WrangeSet::intersection(&some, &none).to_vec(),
        vec![Wrange::Empty]
    );
}

#[test]
fn ascii_pairs_neighbouring_markers() {
    // the two markers enclose one covered stretch and one free stretch, so
    // they must be paired in diagram order
    let expected: WrangeSet = vec![Wrange::new_inclusive(0, 2)].into();
    assert_eq!(ascii("o-o     "), expected);
}
