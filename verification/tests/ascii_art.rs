use wrange::ascii::ascii;
use wrange::Bound::{Exclusive, Inclusive};
use wrange::{Bounds, Wrange, WrangeSet};

#[test]
fn ascii_multi() {
    assert_eq!(
        ascii("--x---x-"),
        vec![Wrange::new_exclusive(2, 6), Wrange::new_exclusive(6, 2)].into()
    );
    assert_eq!(
        ascii("-------x"),
        vec![Wrange::Divergent(Bounds(Exclusive(7), Exclusive(7)))].into()
    );
    assert_eq!(
        ascii("x-------"),
        vec![Wrange::Divergent(Bounds(Exclusive(0), Exclusive(0)))].into()
    );
    assert_eq!(
        ascii("x------x"),
        vec![
            Wrange::Convergent(Bounds(Exclusive(0), Exclusive(7))),
            Wrange::Divergent(Bounds(Exclusive(7), Exclusive(0)))
        ]
        .into()
    );
    assert_eq!(
        ascii("       x"),
        vec![Wrange::Convergent(Bounds(Exclusive(7), Exclusive(7)))].into()
    );
    assert_eq!(
        ascii("x       "),
        vec![Wrange::Convergent(Bounds(Exclusive(0), Exclusive(0)))].into()
    );
    assert_eq!(
        ascii("x x x x "),
        vec![
            Wrange::Convergent(Bounds(Exclusive(0), Exclusive(0))),
            Wrange::Convergent(Bounds(Exclusive(2), Exclusive(2))),
            Wrange::Convergent(Bounds(Exclusive(4), Exclusive(4))),
            Wrange::Convergent(Bounds(Exclusive(6), Exclusive(6)))
        ]
        .into()
    );
    assert_eq!(
        ascii("xxx x-x "),
        vec![
            Wrange::Convergent(Bounds(Exclusive(0), Exclusive(1))),
            Wrange::Convergent(Bounds(Exclusive(1), Exclusive(2))),
            Wrange::Convergent(Bounds(Exclusive(4), Exclusive(6))),
        ]
        .into()
    );
    assert_eq!(
        ascii("xxx x-x"),
        vec![
            Wrange::Convergent(Bounds(Exclusive(0), Exclusive(1))),
            Wrange::Convergent(Bounds(Exclusive(1), Exclusive(2))),
            Wrange::Convergent(Bounds(Exclusive(4), Exclusive(6))),
            Wrange::Divergent(Bounds(Exclusive(6), Exclusive(0))),
        ]
        .into()
    );
    let expected: WrangeSet = vec![
        Wrange::new(Inclusive(0), Exclusive(3)),
        Wrange::new(Exclusive(3), Inclusive(4)),
        Wrange::new(Inclusive(6), Exclusive(7)),
        Wrange::new(Inclusive(9), Inclusive(0)),
    ]
    .into();
    assert_eq!(ascii("o--xo ox o--"), expected);

    // These are all equivalent to Full, but still valid
}

#[test]
fn single_checks() {
    assert_eq!(ascii("        ").to_vec()[0], Wrange::Empty);
    assert_eq!(ascii("--------").to_vec()[0], Wrange::Full);

    assert_eq!(ascii("  o     ").to_vec()[0], Wrange::new_inclusive(2, 2));
    assert_eq!(ascii("   x    ").to_vec()[0], Wrange::new_exclusive(3, 3));
    assert_eq!(ascii("o       ").to_vec()[0], Wrange::new_inclusive(0, 0));
    assert_eq!(ascii("       o").to_vec()[0], Wrange::new_inclusive(7, 7));

    assert_eq!(
        ascii("-----x--").to_vec()[0],
        Wrange::Divergent(Bounds(Exclusive(5), Exclusive(5)))
    );
    assert_eq!(
        ascii("-------x").to_vec()[0],
        Wrange::Divergent(Bounds(Exclusive(7), Exclusive(7)))
    );
    assert_eq!(
        ascii("x-------").to_vec()[0],
        Wrange::Divergent(Bounds(Exclusive(0), Exclusive(0)))
    );

    assert_eq!(ascii("  o----o").to_vec()[0], Wrange::new_inclusive(2, 7));
    assert_eq!(ascii("o----o  ").to_vec()[0], Wrange::new_inclusive(0, 5));
    assert_eq!(ascii("oo      ").to_vec()[0], Wrange::new_inclusive(0, 1));
    assert_eq!(ascii("      oo").to_vec()[0], Wrange::new_inclusive(6, 7));

    assert_eq!(ascii("-o     o").to_vec()[0], Wrange::new_inclusive(7, 1));
    assert_eq!(ascii("o     o-").to_vec()[0], Wrange::new_inclusive(6, 0));
    assert_eq!(ascii("o      o").to_vec()[0], Wrange::new_inclusive(7, 0));
    assert_eq!(ascii("x      x").to_vec()[0], Wrange::new_exclusive(7, 0));
}
