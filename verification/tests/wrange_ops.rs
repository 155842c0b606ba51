use wrange::gfx::gfx;
use wrange::Bound::{Exclusive, Inclusive};
use wrange::{Bounds, Wrange, WrangeSet};

fn single(a: Wrange, b: Wrange, e: Wrange) {
    assert_eq!(Wrange::intersection(&a, &b).normalized().to_vec()[0], e);
    assert_eq!(Wrange::intersection(&b, &a).normalized().to_vec()[0], e);
}

#[test]
fn wrange_test_normalization() {
    assert_eq!(
        Wrange::Convergent(Bounds(Exclusive(0), Exclusive(0))).normalized(),
        Wrange::Empty,
    );

    assert_eq!(
        Wrange::Convergent(Bounds(Inclusive(0), Exclusive(0))).normalized(),
        Wrange::Convergent(Bounds(Inclusive(0), Inclusive(0))),
    );

    assert_eq!(
        Wrange::Divergent(Bounds(Exclusive(0), Exclusive(0))).normalized(),
        Wrange::Divergent(Bounds(Exclusive(0), Exclusive(0))),
    );

    assert_eq!(
        Wrange::Divergent(Bounds(Inclusive(0), Exclusive(0))).normalized(),
        Wrange::Full,
    );
}

#[test]
fn wrange_test_intersection_full_empty() {
    single(Wrange::Full, Wrange::Full, Wrange::Full);
    single(Wrange::Full, Wrange::Empty, Wrange::Empty);
    single(Wrange::Empty, Wrange::Full, Wrange::Empty);
    single(Wrange::Empty, Wrange::Empty, Wrange::Empty);
}

#[test]
fn wrange_test_intersection_convergent_convergent() {
    single(
        gfx("  o-----o       "),
        gfx("     o----o     "),
        gfx("     o--o       "),
    );

    single(
        gfx("     o----o     "),
        gfx("  o-----o       "),
        gfx("     o--o       "),
    );

    single(
        gfx("  o----o       "),
        gfx("          o--o "),
        gfx("               "),
    );

    single(
        gfx("          o--o "),
        gfx("  o----o       "),
        gfx("               "),
    );

    single(
        gfx("       o----o  "),
        gfx("  o----o       "),
        gfx("       o       "),
    );

    single(
        gfx("       x----o  "),
        gfx("  o----o       "),
        gfx("               "),
    );

    single(
        gfx("       x----o  "),
        gfx("  o----x       "),
        gfx("               "),
    );
}

#[test]
fn wrange_test_intersection_divergent_divergent() {
    single(
        gfx("---o        o---"),
        gfx("-----o   o------"),
        gfx("---o        o---"),
    );

    single(
        gfx("---o        o---"),
        gfx("-x       o------"),
        gfx("-x          o---"),
    );

    single(
        gfx("---o        o---"),
        gfx("-------o       o"),
        gfx("---o           o"),
    );

    single(
        gfx("---o        o---"),
        gfx("o              o"),
        gfx("o              o"),
    );

    single(
        gfx("---o        o---"),
        gfx("o              o"),
        gfx("o              o"),
    );

    let expected: WrangeSet = vec![gfx("         o-o    "), gfx("----o        o--")].into();
    assert_eq!(
        Wrange::intersection(&gfx("----o    o------"), &gfx("-----------o o--")).normalized(),
        expected,
    );
    let expected: WrangeSet = vec![gfx("         o-o    "), gfx("----o        o--")].into();
    assert_eq!(
        Wrange::intersection(&gfx("-----------o o--"), &gfx("----o    o------")).normalized(),
        expected,
    );

    single(
        gfx("x              o"),
        gfx("o              x"),
        gfx("x              x"),
    );

    single(
        gfx("x              o"),
        gfx("o              o"),
        gfx("x              o"),
    );

    single(
        gfx("-----------x    o"),
        gfx("o          o-----"),
        gfx("o               o"),
    );
}

#[test]
fn wrange_test_intersection_divergent_convergent() {
    single(
        gfx("---o        o---"),
        gfx("     o----o     "),
        gfx("                "),
    );

    single(
        gfx("---x        x---"),
        gfx("     o----o     "),
        gfx("                "),
    );

    single(
        gfx("---o        o---"),
        gfx(" o-----o        "),
        gfx(" o-o            "),
    );

    single(
        gfx("---o        o---"),
        gfx("        o-----o "),
        gfx("            o-o "),
    );

    assert_eq!(
        Wrange::intersection(&gfx("----o      o----"), &gfx(" o------------o "))
            .normalized()
            .to_vec(),
        vec![gfx(" o--o           "), gfx("           o--o ")],
    );
    assert_eq!(
        Wrange::intersection(&gfx(" o------------o "), &gfx("----o      o----"))
            .normalized()
            .to_vec(),
        vec![gfx(" o--o           "), gfx("           o--o ")],
    );

    single(
        gfx("---x x----------"),
        gfx("    o           "),
        gfx("                "),
    );

    single(
        gfx("---o        o---"),
        gfx("   x            "),
        gfx("                "),
    );

    single(
        gfx("---o        o---"),
        gfx("            x   "),
        gfx("                "),
    );

    single(
        gfx("---o        o---"),
        gfx("   x--------x   "),
        gfx("                "),
    );

    single(
        gfx("---x        x---"),
        gfx("   o--------o   "),
        gfx("                "),
    );

    single(
        gfx("---x        o---"),
        gfx("   o--------x   "),
        gfx("                "),
    );
}

#[test]
fn wrange_test_intersection_with_overlapping_endpoints() {
    single(gfx(" x "), gfx(" o "), gfx("   "));
    single(gfx(" x "), gfx(" x "), gfx("   "));
    single(gfx("---"), gfx(" x "), gfx("   "));
    single(gfx("---"), gfx(" o "), gfx(" o "));
    single(gfx("-x-"), gfx(" o "), gfx("   "));
    single(gfx("-o-"), gfx(" o "), gfx(" o "));
    single(gfx("-o-"), gfx(" x "), gfx("   "));
}
