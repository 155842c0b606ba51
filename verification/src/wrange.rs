use vstd::prelude::*;

use crate::bound::{above, below, Bound, Bounds};
use crate::wrange_set::WrangeSet;

verus! {

/// A wrapping range over `u8`. `Convergent` is a conventional interval whose
/// low bound does not exceed its high bound; `Divergent` wraps through the
/// seam between the domain's maximum and minimum, denoting everything at or
/// above its low bound together with everything at or below its high bound.
#[derive(Clone, Copy, Debug, PartialEq, Eq, Structural)]
pub enum Wrange {
    Empty,
    Convergent(Bounds),
    Divergent(Bounds),
    Full,
}

impl Wrange {
    /// The set of points a range denotes. A convergent range holds the
    /// points between its bounds; a divergent range holds everything at or
    /// above its low bound together with everything at or below its high
    /// bound.
    pub open spec fn contains(self, t: u8) -> bool {
        match self {
            Wrange::Empty => false,
            Wrange::Full => true,
            Wrange::Convergent(p) => above(p.0, t) && below(p.1, t),
            Wrange::Divergent(p) => above(p.0, t) || below(p.1, t),
        }
    }

    /// The shape the constructor establishes: a convergent range's low
    /// coordinate does not exceed its high coordinate, a divergent range's
    /// strictly exceeds it.
    pub open spec fn well_formed(self) -> bool {
        match self {
            Wrange::Empty => true,
            Wrange::Full => true,
            Wrange::Convergent(p) => p.0.value() <= p.1.value(),
            Wrange::Divergent(p) => p.0.value() > p.1.value(),
        }
    }

    /// What `new` builds: the comparison of the two coordinates alone decides
    /// between the convergent and the divergent variant.
    pub open spec fn new_spec(a: Bound, b: Bound) -> Self {
        if a.value() > b.value() {
            Wrange::Divergent(Bounds(a, b))
        } else {
            Wrange::Convergent(Bounds(a, b))
        }
    }

    pub fn new(a: Bound, b: Bound) -> (r: Self)
        ensures
            r == Self::new_spec(a, b),
    {
        if a.inner() > b.inner() {
            Wrange::Divergent(Bounds(a, b))
        } else {
            Wrange::Convergent(Bounds(a, b))
        }
    }

    pub fn new_empty() -> (r: Self)
        ensures
            r == Wrange::Empty,
    {
        Wrange::Empty
    }

    pub fn new_full() -> (r: Self)
        ensures
            r == Wrange::Full,
    {
        Wrange::Full
    }

    pub fn new_inclusive(a: u8, b: u8) -> (r: Self)
        ensures
            r == Self::new_spec(Bound::Inclusive(a), Bound::Inclusive(b)),
    {
        Self::new(Bound::Inclusive(a), Bound::Inclusive(b))
    }

    pub fn new_exclusive(a: u8, b: u8) -> (r: Self)
        ensures
            r == Self::new_spec(Bound::Exclusive(a), Bound::Exclusive(b)),
    {
        Self::new(Bound::Exclusive(a), Bound::Exclusive(b))
    }

    /// What `normalized` returns. After canonicalizing the interior pair, a
    /// convergent range left with two colocated open endpoints denotes no
    /// point at all, and a divergent range left with two colocated closed
    /// endpoints has a zero-width gap, so they collapse to `Empty` and `Full`.
    /// The type has no notion of the domain's minimum or maximum, so only
    /// structurally degenerate cases fold.
    pub open spec fn normalized_spec(self) -> Self {
        match self {
            Wrange::Convergent(p) => {
                let q = p.normalized_spec();
                if q.0.value() == q.1.value() && !q.0.is_inclusive() && !q.1.is_inclusive() {
                    Wrange::Empty
                } else {
                    Wrange::Convergent(q)
                }
            }
            Wrange::Divergent(p) => {
                let q = p.normalized_spec();
                if q.0.value() == q.1.value() && q.0.is_inclusive() && q.1.is_inclusive() {
                    Wrange::Full
                } else {
                    Wrange::Divergent(q)
                }
            }
            Wrange::Empty => Wrange::Empty,
            Wrange::Full => Wrange::Full,
        }
    }

    pub fn normalized(self) -> (r: Self)
        ensures
            r == self.normalized_spec(),
    {
        match self {
            Wrange::Convergent(p) => {
                match p.normalized() {
                    Bounds(Bound::Exclusive(x), Bound::Exclusive(y)) => {
                        if x == y {
                            Wrange::Empty
                        } else {
                            Wrange::Convergent(Bounds(Bound::Exclusive(x), Bound::Exclusive(y)))
                        }
                    }
                    q => Wrange::Convergent(q),
                }
            }
            Wrange::Divergent(p) => {
                match p.normalized() {
                    Bounds(Bound::Inclusive(x), Bound::Inclusive(y)) => {
                        if x == y {
                            Wrange::Full
                        } else {
                            Wrange::Divergent(Bounds(Bound::Inclusive(x), Bound::Inclusive(y)))
                        }
                    }
                    q => Wrange::Divergent(q),
                }
            }
            Wrange::Empty => Wrange::Empty,
            Wrange::Full => Wrange::Full,
        }
    }

    /// Does the narrow reading of "at or below `a`" meet the narrow reading
    /// of "at or above `b`"? This is the intersection-style comparison: at
    /// equal coordinates an exclusive tag wins and the regions miss each
    /// other.
    pub open spec fn reaches(a: Bound, b: Bound) -> bool {
        a.value() > b.value() || (a.value() == b.value() && a.is_inclusive() && b.is_inclusive())
    }

    /// Intersection of two convergent pairs: the candidate overlap runs from
    /// the higher of the low bounds to the lower of the high bounds, both
    /// taken with the intersection-style tie-break; the intervals are
    /// disjoint exactly when that low bound fails to meet that high bound.
    pub open spec fn intersection_cc_spec(p: Bounds, q: Bounds) -> Seq<Wrange> {
        let low = Bound::intersection_max_spec(p.0, q.0);
        let high = Bound::intersection_min_spec(p.1, q.1);
        if !Self::reaches(high, low) {
            seq![Wrange::Empty]
        } else {
            seq![Self::new_spec(low, high)]
        }
    }

    /// Intersection of two divergent pairs. The two wraps always share the
    /// region around the seam, giving the narrowed divergent main span; in
    /// addition one arm of the one may cross the opposite arm of the other,
    /// contributing one convergent overlap.
    pub open spec fn intersection_dd_spec(p: Bounds, q: Bounds) -> Seq<Wrange> {
        let main = Self::new_spec(
            Bound::intersection_max_spec(p.0, q.0),
            Bound::intersection_min_spec(p.1, q.1),
        );
        if Self::reaches(p.1, q.0) && !Self::reaches(q.1, p.0) {
            seq![main, Self::new_spec(q.0, p.1)]
        } else if !Self::reaches(p.1, q.0) && Self::reaches(q.1, p.0) {
            seq![main, Self::new_spec(p.0, q.1)]
        } else {
            seq![main]
        }
    }

    /// Intersection of a divergent pair `p` with a convergent pair `q`: four
    /// sub-cases, depending on whether the convergent range meets the wrap's
    /// high-pole arm (at or above `p.0`) and its low-pole arm (at or below
    /// `p.1`). Meeting both means the convergent range spans both poles and
    /// the overlap falls into two disjoint pieces.
    pub open spec fn intersection_dc_spec(p: Bounds, q: Bounds) -> Seq<Wrange> {
        let meets_low_arm = Self::reaches(p.1, q.0);
        let meets_high_arm = Self::reaches(q.1, p.0);
        if !meets_low_arm && !meets_high_arm {
            seq![Wrange::Empty]
        } else if meets_low_arm && !meets_high_arm {
            seq![
                Self::new_spec(
                    Bound::intersection_min_spec(p.1, q.0),
                    Bound::intersection_min_spec(p.1, q.1),
                ),
            ]
        } else if !meets_low_arm && meets_high_arm {
            seq![
                Self::new_spec(
                    Bound::intersection_max_spec(p.0, q.0),
                    Bound::intersection_max_spec(p.0, q.1),
                ),
            ]
        } else {
            seq![
                Self::new_spec(
                    Bound::intersection_min_spec(p.1, q.0),
                    Bound::intersection_max_spec(p.1, q.0),
                ),
                Self::new_spec(
                    Bound::intersection_min_spec(p.0, q.1),
                    Bound::intersection_max_spec(p.0, q.1),
                ),
            ]
        }
    }

    /// The members of `Wrange::intersection(a, b)`, by the case table on the
    /// variant pair. `Empty` annihilates, `Full` is the identity, and the
    /// mixed divergent/convergent case delegates with the operands swapped.
    pub open spec fn intersection_spec(a: Self, b: Self) -> Seq<Wrange> {
        match (a, b) {
            (Wrange::Empty, _) => seq![Wrange::Empty],
            (_, Wrange::Empty) => seq![Wrange::Empty],
            (Wrange::Full, x) => seq![x],
            (x, Wrange::Full) => seq![x],
            (Wrange::Convergent(p), Wrange::Convergent(q)) => Self::intersection_cc_spec(p, q),
            (Wrange::Divergent(p), Wrange::Divergent(q)) => Self::intersection_dd_spec(p, q),
            (Wrange::Convergent(p), Wrange::Divergent(q)) => Self::intersection_dc_spec(q, p),
            (Wrange::Divergent(p), Wrange::Convergent(q)) => Self::intersection_dc_spec(p, q),
        }
    }

    /// Whether the narrow readings of an upper and a lower bound meet:
    /// coordinates decide, and at equal coordinates only two closed tags
    /// touch.
    fn reaches_exec(a: &Bound, b: &Bound) -> (r: bool)
        ensures
            r == Self::reaches(*a, *b),
    {
        a.inner() > b.inner() || (a.inner() == b.inner() && a.is_inclusive_exec()
            && b.is_inclusive_exec())
    }

    pub fn intersection(a: &Self, b: &Self) -> (r: WrangeSet)
        ensures
            r@ == Self::intersection_spec(*a, *b),
    {
        match (a, b) {
            (Wrange::Empty, _) | (_, Wrange::Empty) => WrangeSet::single(Wrange::Empty),
            (Wrange::Full, x) | (x, Wrange::Full) => WrangeSet::single(*x),
            (Wrange::Convergent(p), Wrange::Convergent(q)) => {
                Self::intersection_cc(p, q)
            }
            (Wrange::Divergent(p), Wrange::Divergent(q)) => {
                Self::intersection_dd(p, q)
            }
            (Wrange::Convergent(p), Wrange::Divergent(q)) => {
                Self::intersection_dc(q, p)
            }
            (Wrange::Divergent(p), Wrange::Convergent(q)) => {
                Self::intersection_dc(p, q)
            }
        }
    }

    fn intersection_cc(p: &Bounds, q: &Bounds) -> (r: WrangeSet)
        ensures
            r@ == Self::intersection_cc_spec(*p, *q),
    {
        let low = Bound::intersection_max(&p.0, &q.0);
        let high = Bound::intersection_min(&p.1, &q.1);
        if !Self::reaches_exec(&high, &low) {
            WrangeSet::single(Wrange::Empty)
        } else {
            WrangeSet::single(Self::new(low, high))
        }
    }

    fn intersection_dd(p: &Bounds, q: &Bounds) -> (r: WrangeSet)
        ensures
            r@ == Self::intersection_dd_spec(*p, *q),
    {
        let main = Self::new(
            Bound::intersection_max(&p.0, &q.0),
            Bound::intersection_min(&p.1, &q.1),
        );
        let meets_low_arm = Self::reaches_exec(&p.1, &q.0);
        let meets_high_arm = Self::reaches_exec(&q.1, &p.0);
        if meets_low_arm && !meets_high_arm {
            WrangeSet::pair(main, Self::new(q.0, p.1))
        } else if !meets_low_arm && meets_high_arm {
            WrangeSet::pair(main, Self::new(p.0, q.1))
        } else {
            WrangeSet::single(main)
        }
    }

    fn intersection_dc(p: &Bounds, q: &Bounds) -> (r: WrangeSet)
        ensures
            r@ == Self::intersection_dc_spec(*p, *q),
    {
        let meets_low_arm = Self::reaches_exec(&p.1, &q.0);
        let meets_high_arm = Self::reaches_exec(&q.1, &p.0);
        if !meets_low_arm && !meets_high_arm {
            WrangeSet::single(Wrange::Empty)
        } else if meets_low_arm && !meets_high_arm {
            WrangeSet::single(
                Self::new(
                    Bound::intersection_min(&p.1, &q.0),
                    Bound::intersection_min(&p.1, &q.1),
                ),
            )
        } else if !meets_low_arm && meets_high_arm {
            WrangeSet::single(
                Self::new(
                    Bound::intersection_max(&p.0, &q.0),
                    Bound::intersection_max(&p.0, &q.1),
                ),
            )
        } else {
            WrangeSet::pair(
                Self::new(
                    Bound::intersection_min(&p.1, &q.0),
                    Bound::intersection_max(&p.1, &q.0),
                ),
                Self::new(
                    Bound::intersection_min(&p.0, &q.1),
                    Bound::intersection_max(&p.0, &q.1),
                ),
            )
        }
    }
}

/// Does some member of `s` contain the point `t`?
pub open spec fn members_contain(s: Seq<Wrange>, t: u8) -> bool {
    exists|i: int| 0 <= i < s.len() && #[trigger] s[i].contains(t)
}

/// Is every member of `s` well formed?
pub open spec fn members_well_formed(s: Seq<Wrange>) -> bool {
    forall|i: int| 0 <= i < s.len() ==> (#[trigger] s[i]).well_formed()
}

/// Whatever the constructor builds is well formed: the comparison that
/// chooses the variant is exactly the variant's shape.
pub proof fn lemma_new_well_formed(a: Bound, b: Bound)
    ensures
        Wrange::new_spec(a, b).well_formed(),
{
}

/// Normalization preserves well-formedness.
pub proof fn lemma_normalized_well_formed(w: Wrange)
    requires
        w.well_formed(),
    ensures
        w.normalized_spec().well_formed(),
{
}

/// Every member of an intersection of well-formed ranges is well formed, so
/// results can be intersected further.
pub proof fn lemma_intersection_well_formed(a: Wrange, b: Wrange)
    requires
        a.well_formed(),
        b.well_formed(),
    ensures
        members_well_formed(Wrange::intersection_spec(a, b)),
{
    let s = Wrange::intersection_spec(a, b);
    assert forall|i: int| 0 <= i < s.len() implies (#[trigger] s[i]).well_formed() by {
        match (a, b) {
            (Wrange::Empty, _) | (_, Wrange::Empty) => {
                assert(s[i] == Wrange::Empty);
            }
            (Wrange::Full, x) | (x, Wrange::Full) => {
                assert(s[i] == x);
            }
            _ => {
                assert(s.len() <= 2);
            }
        }
    }
}

/// Intersection is symmetric: intersecting two ranges in either order gives
/// the very same members, so in particular the two results normalize to
/// equal sets.
pub proof fn lemma_intersection_symmetric(a: Wrange, b: Wrange)
    ensures
        Wrange::intersection_spec(a, b) =~= Wrange::intersection_spec(b, a),
{
}

/// `Full` is the identity of intersection: intersecting with `Full` gives
/// back exactly the one-member set holding the other operand.
pub proof fn lemma_intersection_full_identity(x: Wrange)
    ensures
        Wrange::intersection_spec(Wrange::Full, x) =~= seq![x],
{
}

/// `Empty` annihilates intersection: intersecting with `Empty` gives the
/// one-member set `{Empty}` whatever the other operand.
pub proof fn lemma_intersection_empty_annihilates(x: Wrange)
    ensures
        Wrange::intersection_spec(Wrange::Empty, x) =~= seq![Wrange::Empty],
{
}

/// Normalization is idempotent: normalizing a second time changes nothing.
pub proof fn lemma_normalized_idempotent(w: Wrange)
    ensures
        w.normalized_spec().normalized_spec() == w.normalized_spec(),
{
}

/// Degenerate collapse: a convergent range with two colocated exclusive
/// bounds denotes no point and normalizes to `Empty`; a divergent range with
/// two colocated inclusive bounds has a zero-width, included gap and
/// normalizes to `Full`.
pub proof fn lemma_degenerate_collapse(x: u8)
    ensures
        Wrange::Convergent(
            Bounds(Bound::Exclusive(x), Bound::Exclusive(x)),
        ).normalized_spec() == Wrange::Empty,
        Wrange::Divergent(
            Bounds(Bound::Inclusive(x), Bound::Inclusive(x)),
        ).normalized_spec() == Wrange::Full,
{
}

/// The exclusive tag wins ties in intersections: a closed single point meets
/// a colocated range exactly when that range's endpoints are closed too, and
/// any open endpoint at the coordinate empties the overlap.
pub proof fn lemma_exclusive_wins_at_tie(x: u8)
    ensures
        Wrange::intersection_spec(
            Wrange::Convergent(Bounds(Bound::Inclusive(x), Bound::Inclusive(x))),
            Wrange::Convergent(Bounds(Bound::Exclusive(x), Bound::Exclusive(x))),
        ) =~= seq![Wrange::Empty],
        Wrange::intersection_spec(
            Wrange::Convergent(Bounds(Bound::Inclusive(x), Bound::Inclusive(x))),
            Wrange::Divergent(Bounds(Bound::Exclusive(x), Bound::Exclusive(x))),
        ) =~= seq![Wrange::Empty],
        Wrange::intersection_spec(
            Wrange::Convergent(Bounds(Bound::Inclusive(x), Bound::Inclusive(x))),
            Wrange::Convergent(Bounds(Bound::Inclusive(x), Bound::Inclusive(x))),
        ) =~= seq![Wrange::Convergent(Bounds(Bound::Inclusive(x), Bound::Inclusive(x)))],
{
}

/// Intersection computes exactly the meet of the denoted point-sets: for
/// well-formed operands, a point lies in some member of the result precisely
/// when both operands contain it.
pub proof fn lemma_intersection_exact(a: Wrange, b: Wrange, t: u8)
    requires
        a.well_formed(),
        b.well_formed(),
    ensures
        members_contain(Wrange::intersection_spec(a, b), t) <==> (a.contains(t) && b.contains(t)),
{
    let s = Wrange::intersection_spec(a, b);
    match (a, b) {
        (Wrange::Empty, _) | (_, Wrange::Empty) => {
            assert(s =~= seq![Wrange::Empty]);
            if members_contain(s, t) {
                let i = choose|i: int| 0 <= i < s.len() && #[trigger] s[i].contains(t);
                assert(s[i] == Wrange::Empty);
            }
        }
        (Wrange::Full, x) | (x, Wrange::Full) => {
            assert(s =~= seq![x]);
            if x.contains(t) {
                assert(s[0].contains(t));
            }
            if members_contain(s, t) {
                let i = choose|i: int| 0 <= i < s.len() && #[trigger] s[i].contains(t);
                assert(s[i] == x);
            }
        }
        (Wrange::Convergent(p), Wrange::Convergent(q)) => {
            lemma_intersection_cc_exact(p, q, t);
        }
        (Wrange::Divergent(p), Wrange::Divergent(q)) => {
            lemma_intersection_dd_exact(p, q, t);
        }
        (Wrange::Convergent(p), Wrange::Divergent(q)) => {
            lemma_intersection_dc_exact(q, p, t);
        }
        (Wrange::Divergent(p), Wrange::Convergent(q)) => {
            lemma_intersection_dc_exact(p, q, t);
        }
    }
}

proof fn lemma_intersection_cc_exact(p: Bounds, q: Bounds, t: u8)
    requires
        p.0.value() <= p.1.value(),
        q.0.value() <= q.1.value(),
    ensures
        members_contain(Wrange::intersection_cc_spec(p, q), t) <==> (above(p.0, t) && below(
            p.1,
            t,
        ) && above(q.0, t) && below(q.1, t)),
{
    let low = Bound::intersection_max_spec(p.0, q.0);
    let high = Bound::intersection_min_spec(p.1, q.1);
    let s = Wrange::intersection_cc_spec(p, q);
    assert(above(low, t) == (above(p.0, t) && above(q.0, t)));
    assert(below(high, t) == (below(p.1, t) && below(q.1, t)));
    if Wrange::reaches(high, low) {
        let w = Wrange::new_spec(low, high);
        assert(s =~= seq![w]);
        assert(w == Wrange::Convergent(Bounds(low, high)));
        if w.contains(t) {
            assert(s[0].contains(t));
        }
        if members_contain(s, t) {
            let i = choose|i: int| 0 <= i < s.len() && #[trigger] s[i].contains(t);
            assert(s[i] == w);
        }
    } else {
        assert(!(above(low, t) && below(high, t)));
        if members_contain(s, t) {
            let i = choose|i: int| 0 <= i < s.len() && #[trigger] s[i].contains(t);
            assert(s[i] == Wrange::Empty);
        }
    }
}

proof fn lemma_intersection_dd_exact(p: Bounds, q: Bounds, t: u8)
    requires
        p.0.value() > p.1.value(),
        q.0.value() > q.1.value(),
    ensures
        members_contain(Wrange::intersection_dd_spec(p, q), t) <==> ((above(p.0, t) || below(
            p.1,
            t,
        )) && (above(q.0, t) || below(q.1, t))),
{
    let low = Bound::intersection_max_spec(p.0, q.0);
    let high = Bound::intersection_min_spec(p.1, q.1);
    let main = Wrange::new_spec(low, high);
    let c1 = Wrange::reaches(p.1, q.0);
    let c2 = Wrange::reaches(q.1, p.0);
    let s = Wrange::intersection_dd_spec(p, q);
    assert(above(low, t) == (above(p.0, t) && above(q.0, t)));
    assert(below(high, t) == (below(p.1, t) && below(q.1, t)));
    assert(low.value() > high.value());
    assert(main == Wrange::Divergent(Bounds(low, high)));
    if c1 && c2 {
        assert(false);
    } else if c1 {
        let cross = Wrange::new_spec(q.0, p.1);
        assert(s =~= seq![main, cross]);
        assert(cross == Wrange::Convergent(Bounds(q.0, p.1)));
        assert(!(above(p.0, t) && below(q.1, t)));
        if main.contains(t) {
            assert(s[0].contains(t));
        }
        if cross.contains(t) {
            assert(s[1].contains(t));
        }
        if members_contain(s, t) {
            let i = choose|i: int| 0 <= i < s.len() && #[trigger] s[i].contains(t);
            assert(s[i] == main || s[i] == cross);
        }
    } else if c2 {
        let cross = Wrange::new_spec(p.0, q.1);
        assert(s =~= seq![main, cross]);
        assert(cross == Wrange::Convergent(Bounds(p.0, q.1)));
        assert(!(above(q.0, t) && below(p.1, t)));
        if main.contains(t) {
            assert(s[0].contains(t));
        }
        if cross.contains(t) {
            assert(s[1].contains(t));
        }
        if members_contain(s, t) {
            let i = choose|i: int| 0 <= i < s.len() && #[trigger] s[i].contains(t);
            assert(s[i] == main || s[i] == cross);
        }
    } else {
        assert(s =~= seq![main]);
        assert(!(above(q.0, t) && below(p.1, t)));
        assert(!(above(p.0, t) && below(q.1, t)));
        if main.contains(t) {
            assert(s[0].contains(t));
        }
        if members_contain(s, t) {
            let i = choose|i: int| 0 <= i < s.len() && #[trigger] s[i].contains(t);
            assert(s[i] == main);
        }
    }
}

proof fn lemma_intersection_dc_exact(p: Bounds, q: Bounds, t: u8)
    requires
        p.0.value() > p.1.value(),
        q.0.value() <= q.1.value(),
    ensures
        members_contain(Wrange::intersection_dc_spec(p, q), t) <==> ((above(p.0, t) || below(
            p.1,
            t,
        )) && above(q.0, t) && below(q.1, t)),
{
    let c1 = Wrange::reaches(p.1, q.0);
    let c2 = Wrange::reaches(q.1, p.0);
    let s = Wrange::intersection_dc_spec(p, q);
    if !c1 && !c2 {
        assert(!(above(q.0, t) && below(p.1, t)));
        assert(!(above(p.0, t) && below(q.1, t)));
        if members_contain(s, t) {
            let i = choose|i: int| 0 <= i < s.len() && #[trigger] s[i].contains(t);
            assert(s[i] == Wrange::Empty);
        }
    } else if c1 && !c2 {
        let w = Wrange::new_spec(
            Bound::intersection_min_spec(p.1, q.0),
            Bound::intersection_min_spec(p.1, q.1),
        );
        assert(s =~= seq![w]);
        assert(Bound::intersection_min_spec(p.1, q.0) == q.0);
        assert(below(Bound::intersection_min_spec(p.1, q.1), t) == (below(p.1, t) && below(
            q.1,
            t,
        )));
        assert(w == Wrange::Convergent(Bounds(q.0, Bound::intersection_min_spec(p.1, q.1))));
        assert(!(above(p.0, t) && below(q.1, t)));
        if w.contains(t) {
            assert(s[0].contains(t));
        }
        if members_contain(s, t) {
            let i = choose|i: int| 0 <= i < s.len() && #[trigger] s[i].contains(t);
            assert(s[i] == w);
        }
    } else if !c1 && c2 {
        let w = Wrange::new_spec(
            Bound::intersection_max_spec(p.0, q.0),
            Bound::intersection_max_spec(p.0, q.1),
        );
        assert(s =~= seq![w]);
        assert(Bound::intersection_max_spec(p.0, q.1) == q.1);
        assert(above(Bound::intersection_max_spec(p.0, q.0), t) == (above(p.0, t) && above(
            q.0,
            t,
        )));
        assert(w == Wrange::Convergent(Bounds(Bound::intersection_max_spec(p.0, q.0), q.1)));
        assert(!(above(q.0, t) && below(p.1, t)));
        if w.contains(t) {
            assert(s[0].contains(t));
        }
        if members_contain(s, t) {
            let i = choose|i: int| 0 <= i < s.len() && #[trigger] s[i].contains(t);
            assert(s[i] == w);
        }
    } else {
        let w0 = Wrange::new_spec(
            Bound::intersection_min_spec(p.1, q.0),
            Bound::intersection_max_spec(p.1, q.0),
        );
        let w1 = Wrange::new_spec(
            Bound::intersection_min_spec(p.0, q.1),
            Bound::intersection_max_spec(p.0, q.1),
        );
        assert(s =~= seq![w0, w1]);
        assert(Bound::intersection_min_spec(p.1, q.0) == q.0);
        assert(Bound::intersection_max_spec(p.1, q.0) == p.1);
        assert(Bound::intersection_min_spec(p.0, q.1) == p.0);
        assert(Bound::intersection_max_spec(p.0, q.1) == q.1);
        assert(w0 == Wrange::Convergent(Bounds(q.0, p.1)));
        assert(w1 == Wrange::Convergent(Bounds(p.0, q.1)));
        // the convergent range spans both arms: each piece's missing
        // conjunct is implied by the strict gap of the divergent pair
        assert(p.1.value() < q.1.value());
        assert(q.0.value() < p.0.value());
        if w0.contains(t) {
            assert(s[0].contains(t));
        }
        if w1.contains(t) {
            assert(s[1].contains(t));
        }
        if members_contain(s, t) {
            let i = choose|i: int| 0 <= i < s.len() && #[trigger] s[i].contains(t);
            assert(s[i] == w0 || s[i] == w1);
        }
    }
}

} // verus!
