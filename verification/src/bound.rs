use vstd::prelude::*;

use core::cmp::Ordering;

verus! {

/// One endpoint of an interval: a coordinate tagged as open (`Exclusive`)
/// or closed (`Inclusive`).
#[derive(Clone, Copy, Debug, PartialEq, Eq, Structural)]
pub enum Bound {
    Exclusive(u8),
    Inclusive(u8),
}

impl Bound {
    /// The coordinate carried by the bound, with the tag stripped.
    pub open spec fn value(self) -> u8 {
        match self {
            Bound::Exclusive(t) => t,
            Bound::Inclusive(t) => t,
        }
    }

    pub open spec fn is_inclusive(self) -> bool {
        self matches Bound::Inclusive(_)
    }

    /// The order on bounds: coordinates decide, ties between equal tags are
    /// genuine equality, and an `Exclusive`/`Inclusive` pair at the same
    /// coordinate has no definite order.
    pub open spec fn order_spec(self, other: Self) -> Option<Ordering> {
        if self.value() < other.value() {
            Some(Ordering::Less)
        } else if self.value() > other.value() {
            Some(Ordering::Greater)
        } else if self.is_inclusive() == other.is_inclusive() {
            Some(Ordering::Equal)
        } else {
            None
        }
    }

    /// The lower of two bounds under the intersection-style tie-break:
    /// at equal coordinates, `Exclusive` wins.
    pub open spec fn intersection_min_spec(a: Self, b: Self) -> Self {
        if a.value() == b.value() {
            if !a.is_inclusive() {
                a
            } else if !b.is_inclusive() {
                b
            } else {
                a
            }
        } else if a.value() < b.value() {
            a
        } else {
            b
        }
    }

    /// The higher of two bounds under the intersection-style tie-break:
    /// at equal coordinates, `Exclusive` wins.
    pub open spec fn intersection_max_spec(a: Self, b: Self) -> Self {
        if a.value() == b.value() {
            if !a.is_inclusive() {
                a
            } else if !b.is_inclusive() {
                b
            } else {
                a
            }
        } else if a.value() > b.value() {
            a
        } else {
            b
        }
    }

    /// The lower of two bounds under the union-style tie-break:
    /// at equal coordinates, `Inclusive` wins.
    pub open spec fn union_min_spec(a: Self, b: Self) -> Self {
        if a.value() == b.value() {
            if a.is_inclusive() {
                a
            } else if b.is_inclusive() {
                b
            } else {
                a
            }
        } else if a.value() < b.value() {
            a
        } else {
            b
        }
    }

    /// The higher of two bounds under the union-style tie-break:
    /// at equal coordinates, `Inclusive` wins.
    pub open spec fn union_max_spec(a: Self, b: Self) -> Self {
        if a.value() == b.value() {
            if a.is_inclusive() {
                a
            } else if b.is_inclusive() {
                b
            } else {
                a
            }
        } else if a.value() > b.value() {
            a
        } else {
            b
        }
    }

    pub fn intersection_min(a: &Self, b: &Self) -> (r: Self)
        ensures
            r == Self::intersection_min_spec(*a, *b),
    {
        if a.inner() == b.inner() {
            match (a, b) {
                (Bound::Inclusive(_), Bound::Exclusive(_)) => *b,
                _ => *a,
            }
        } else if a.inner() < b.inner() {
            *a
        } else {
            *b
        }
    }

    pub fn intersection_max(a: &Self, b: &Self) -> (r: Self)
        ensures
            r == Self::intersection_max_spec(*a, *b),
    {
        if a.inner() == b.inner() {
            match (a, b) {
                (Bound::Inclusive(_), Bound::Exclusive(_)) => *b,
                _ => *a,
            }
        } else if a.inner() > b.inner() {
            *a
        } else {
            *b
        }
    }

    pub fn union_min(a: &Self, b: &Self) -> (r: Self)
        ensures
            r == Self::union_min_spec(*a, *b),
    {
        if a.inner() == b.inner() {
            match (a, b) {
                (Bound::Exclusive(_), Bound::Inclusive(_)) => *b,
                _ => *a,
            }
        } else if a.inner() < b.inner() {
            *a
        } else {
            *b
        }
    }

    pub fn union_max(a: &Self, b: &Self) -> (r: Self)
        ensures
            r == Self::union_max_spec(*a, *b),
    {
        if a.inner() == b.inner() {
            match (a, b) {
                (Bound::Exclusive(_), Bound::Inclusive(_)) => *b,
                _ => *a,
            }
        } else if a.inner() > b.inner() {
            *a
        } else {
            *b
        }
    }

    pub fn is_inclusive_exec(&self) -> (r: bool)
        ensures
            r == self.is_inclusive(),
    {
        match self {
            Bound::Inclusive(_) => true,
            Bound::Exclusive(_) => false,
        }
    }

    pub fn inner(&self) -> (r: u8)
        ensures
            r == self.value(),
    {
        match self {
            Bound::Inclusive(t) => *t,
            Bound::Exclusive(t) => *t,
        }
    }
}

impl PartialOrd for Bound {
    fn partial_cmp(&self, other: &Self) -> (r: Option<Ordering>) {
        if self.inner() < other.inner() {
            Some(Ordering::Less)
        } else if self.inner() > other.inner() {
            Some(Ordering::Greater)
        } else {
            match (self, other) {
                (Bound::Exclusive(_), Bound::Exclusive(_)) => Some(Ordering::Equal),
                (Bound::Inclusive(_), Bound::Inclusive(_)) => Some(Ordering::Equal),
                _ => None,
            }
        }
    }
}

impl vstd::std_specs::cmp::PartialOrdSpecImpl for Bound {
    open spec fn obeys_partial_cmp_spec() -> bool {
        true
    }

    open spec fn partial_cmp_spec(&self, other: &Self) -> Option<Ordering> {
        Bound::order_spec(*self, *other)
    }
}

/// Does the point `t` lie on or above the lower bound `b`?
pub open spec fn above(b: Bound, t: u8) -> bool {
    match b {
        Bound::Inclusive(x) => t >= x,
        Bound::Exclusive(x) => t > x,
    }
}

/// Does the point `t` lie on or below the upper bound `b`?
pub open spec fn below(b: Bound, t: u8) -> bool {
    match b {
        Bound::Inclusive(x) => t <= x,
        Bound::Exclusive(x) => t < x,
    }
}

/// An ordered pair of bounds, stored exactly as given at construction;
/// whether the pair is read as (low, high) is decided by the surrounding
/// range, never by the pair itself.
#[derive(Clone, Copy, Debug, PartialEq, Eq, Structural)]
pub struct Bounds(pub Bound, pub Bound);

impl Bounds {
    /// A colocated open/closed pair jointly denotes the single point at its
    /// coordinate, so it canonicalizes to a doubly-closed pair; every other
    /// pair passes through unchanged.
    pub open spec fn normalized_spec(self) -> Self {
        if self.0.value() == self.1.value() && self.0.is_inclusive() != self.1.is_inclusive() {
            Bounds(Bound::Inclusive(self.0.value()), Bound::Inclusive(self.0.value()))
        } else {
            self
        }
    }

    /// Two colocated endpoints with both an inclusive and an exclusive
    /// representation are equivalent to two colocated inclusive endpoints.
    pub fn normalized(self) -> (r: Self)
        ensures
            r == self.normalized_spec(),
    {
        match self {
            Bounds(Bound::Exclusive(x), Bound::Inclusive(y)) => {
                if x == y {
                    Bounds(Bound::Inclusive(y), Bound::Inclusive(y))
                } else {
                    self
                }
            }
            Bounds(Bound::Inclusive(x), Bound::Exclusive(y)) => {
                if x == y {
                    Bounds(Bound::Inclusive(x), Bound::Inclusive(x))
                } else {
                    self
                }
            }
            _ => self,
        }
    }
}

} // verus!
