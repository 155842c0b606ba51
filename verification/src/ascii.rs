//! Construction of whole range sets from one-line text diagrams. Unlike
//! `gfx`, a diagram here may carry any number of endpoint markers; every
//! circularly consecutive pair of markers encloses a stretch of cells that
//! is either covered (`-`) or free (` `), and the covered stretches, plus a
//! zero-length range for every marker isolated between two free stretches,
//! make up the set.

use vstd::prelude::*;
use vstd::string::StringSliceAdditionalSpecFns;

use itertools::Itertools;

use crate::bound::Bounds;
use crate::gfx::{
    bound_of, endpoints, find_endpoints, lemma_endpoints_props, marker_bound, region_is, uniform,
    COVERED, FREE,
};
use crate::wrange::Wrange;
use crate::wrange_set::WrangeSet;

verus! {

/// Relies on itertools' `circular_tuple_windows`: over a vector of `n`
/// elements it yields exactly `n` pairs, the `i`-th pairing element `i`
/// with element `(i + 1) mod n`.
#[verifier::external_body]
fn circular_pairs(v: &Vec<(usize, u8)>) -> (r: Vec<((usize, u8), (usize, u8))>)
    ensures
        r@.len() == v@.len(),
        forall|i: int|
            0 <= i < v@.len() ==> #[trigger] r@[i] == (v@[i], v@[(i + 1) % (v@.len() as int)]),
{
    v.iter().copied().circular_tuple_windows::<((usize, u8), (usize, u8))>().collect()
}

/// Is the circular stretch of cells that runs from just after position `lo`
/// to just before position `hi` covered? When the stretch wraps past the end
/// of the diagram, its leading and trailing parts agree on an accepted
/// diagram, and a part that has shrunk to nothing leaves the decision to the
/// other.
pub open spec fn stretch_covered(s: Seq<u8>, lo: usize, hi: usize) -> bool {
    if lo < hi {
        uniform(s, lo + 1, hi as int, COVERED)
    } else if lo == s.len() - 1 {
        uniform(s, 0, hi as int, COVERED)
    } else if hi == 0 {
        uniform(s, lo + 1, s.len() as int, COVERED)
    } else {
        uniform(s, 0, hi as int, COVERED)
    }
}

/// The stretch between the two positions is accepted: each of its parts is
/// covered throughout or free throughout, and the two parts of a wrapping
/// stretch agree whenever both are there.
pub open spec fn stretch_ok(s: Seq<u8>, lo: usize, hi: usize) -> bool {
    if lo < hi {
        uniform(s, lo + 1, hi as int, COVERED) || uniform(s, lo + 1, hi as int, FREE)
    } else {
        let end_covered = uniform(s, lo + 1, s.len() as int, COVERED);
        let start_covered = uniform(s, 0, hi as int, COVERED);
        &&& end_covered || uniform(s, lo + 1, s.len() as int, FREE)
        &&& start_covered || uniform(s, 0, hi as int, FREE)
        &&& lo == s.len() - 1 || hi == 0 || start_covered == end_covered
    }
}

/// Is the stretch that follows the `i`-th endpoint, circularly, covered?
pub open spec fn interval_on(s: Seq<u8>, eps: Seq<(usize, u8)>, i: int) -> bool {
    stretch_covered(s, eps[i].0, eps[(i + 1) % (eps.len() as int)].0)
}

/// The range a covered stretch denotes: between the two endpoints when they
/// are in order, wrapping when they are not.
pub open spec fn span_of(e0: (usize, u8), e1: (usize, u8)) -> Wrange {
    if e0.0 < e1.0 {
        Wrange::Convergent(Bounds(bound_of(e0), bound_of(e1)))
    } else {
        Wrange::Divergent(Bounds(bound_of(e0), bound_of(e1)))
    }
}

/// What the `i`-th endpoint and its following stretch contribute: a covered
/// stretch contributes its span; an endpoint between two free stretches
/// contributes the zero-length range at its own position; any other free
/// stretch contributes nothing.
pub open spec fn piece(s: Seq<u8>, eps: Seq<(usize, u8)>, i: int) -> Seq<Wrange> {
    let prev = if i == 0 {
        eps.len() as int - 1
    } else {
        i - 1
    };
    if !interval_on(s, eps, prev) && !interval_on(s, eps, i) {
        seq![Wrange::Convergent(Bounds(bound_of(eps[i]), bound_of(eps[i])))]
    } else if interval_on(s, eps, i) {
        seq![span_of(eps[i], eps[(i + 1) % (eps.len() as int)])]
    } else {
        Seq::empty()
    }
}

/// The contributions of the first `i` endpoints, in order.
pub open spec fn pieces_up_to(s: Seq<u8>, eps: Seq<(usize, u8)>, i: int) -> Seq<Wrange>
    decreases i,
{
    if i <= 0 {
        Seq::empty()
    } else {
        pieces_up_to(s, eps, i - 1) + piece(s, eps, i - 1)
    }
}

/// A diagram `ascii` accepts: without markers the whole strip is uniform;
/// with markers, every circularly consecutive stretch is accepted.
pub open spec fn ascii_wf(s: Seq<u8>) -> bool {
    let eps = endpoints(s);
    if eps.len() == 0 {
        uniform(s, 0, s.len() as int, COVERED) || uniform(s, 0, s.len() as int, FREE)
    } else {
        forall|i: int|
            0 <= i < eps.len() ==> stretch_ok(
                s,
                (#[trigger] eps[i]).0,
                eps[(i + 1) % (eps.len() as int)].0,
            )
    }
}

/// What `ascii` returns on an accepted diagram.
pub open spec fn ascii_spec(s: Seq<u8>) -> Seq<Wrange> {
    let eps = endpoints(s);
    if eps.len() == 0 {
        if uniform(s, 0, s.len() as int, COVERED) {
            seq![Wrange::Full]
        } else {
            seq![Wrange::Empty]
        }
    } else {
        pieces_up_to(s, eps, eps.len() as int)
    }
}

/// Is the circular stretch from just after `lo` to just before `hi`
/// covered?
fn stretch_covered_exec(bytes: &[u8], lo: usize, hi: usize) -> (r: bool)
    requires
        lo < bytes@.len(),
        hi < bytes@.len(),
    ensures
        r == stretch_covered(bytes@, lo, hi),
{
    let len = bytes.len();
    if lo < hi {
        region_is(bytes, lo + 1, hi, COVERED)
    } else {
        let end_covered = region_is(bytes, lo + 1, len, COVERED);
        let start_covered = region_is(bytes, 0, hi, COVERED);
        if lo == len - 1 {
            start_covered
        } else if hi == 0 {
            end_covered
        } else {
            start_covered
        }
    }
}

/// Parse a one-line diagram into a set of ranges, one per covered stretch
/// or isolated marker.
#[verifier::rlimit(50)]
pub fn ascii(s: &str) -> (r: WrangeSet)
    requires
        ascii_wf(s.spec_bytes()),
    ensures
        r@ == ascii_spec(s.spec_bytes()),
{
    let bytes = s.as_bytes();
    let n_bytes = bytes.len();
    let eps = find_endpoints(bytes);
    proof {
        assert(bytes@.len() <= usize::MAX);
        lemma_endpoints_props(bytes@);
    }
    let n = eps.len();
    if n == 0 {
        if region_is(bytes, 0, n_bytes, COVERED) {
            WrangeSet::single(Wrange::Full)
        } else {
            WrangeSet::single(Wrange::Empty)
        }
    } else {
        let pairs = circular_pairs(&eps);
        let mut ons: Vec<bool> = Vec::new();
        let mut i: usize = 0;
        while i < n
            invariant
                i <= n,
                n == eps@.len(),
                eps@ == endpoints(bytes@),
                n_bytes == bytes@.len(),
                pairs@.len() == n,
                forall|j: int|
                    0 <= j < n ==> #[trigger] pairs@[j] == (eps@[j], eps@[(j + 1) % (n as int)]),
                forall|j: int| 0 <= j < eps@.len() ==> (#[trigger] eps@[j]).0 < bytes@.len(),
                ons@.len() == i,
                forall|j: int| 0 <= j < i ==> ons@[j] == interval_on(bytes@, eps@, j),
            decreases n - i,
        {
            let lo = pairs[i].0.0;
            let hi = pairs[i].1.0;
            let on = stretch_covered_exec(bytes, lo, hi);
            ons.push(on);
            i = i + 1;
        }
        let mut out: Vec<Wrange> = Vec::new();
        let mut i: usize = 0;
        while i < n
            invariant
                i <= n,
                n == eps@.len(),
                eps@ == endpoints(bytes@),
                n_bytes == bytes@.len(),
                pairs@.len() == n,
                forall|j: int|
                    0 <= j < n ==> #[trigger] pairs@[j] == (eps@[j], eps@[(j + 1) % (n as int)]),
                ons@.len() == n,
                forall|j: int| 0 <= j < n ==> ons@[j] == interval_on(bytes@, eps@, j),
                out@ == pieces_up_to(bytes@, eps@, i as int),
            decreases n - i,
        {
            let prev_on = if i == 0 {
                ons[n - 1]
            } else {
                ons[i - 1]
            };
            let on = ons[i];
            let e0 = pairs[i].0;
            let e1 = pairs[i].1;
            if !prev_on && !on {
                let b = marker_bound(e0);
                out.push(Wrange::Convergent(Bounds(b, b)));
            } else if on {
                let b0 = marker_bound(e0);
                let b1 = marker_bound(e1);
                if e0.0 < e1.0 {
                    out.push(Wrange::Convergent(Bounds(b0, b1)));
                } else {
                    out.push(Wrange::Divergent(Bounds(b0, b1)));
                }
            }
            i = i + 1;
            proof {
                let k = i as int - 1;
                let m = n as int;
                if k + 1 < m {
                    vstd::arithmetic::div_mod::lemma_small_mod((k + 1) as nat, m as nat);
                } else {
                    vstd::arithmetic::div_mod::lemma_mod_self_0(m);
                }
                if k == 0 {
                    vstd::arithmetic::div_mod::lemma_small_mod((m - 1) as nat, m as nat);
                } else {
                    vstd::arithmetic::div_mod::lemma_small_mod(k as nat, m as nat);
                }
                assert(e0 == eps@[k]);
                assert(e1 == eps@[(k + 1) % m]);
                assert(on == interval_on(bytes@, eps@, k));
                let prev = if k == 0 {
                    m - 1
                } else {
                    k - 1
                };
                assert(prev_on == interval_on(bytes@, eps@, prev));
                assert(pieces_up_to(bytes@, eps@, k + 1) == pieces_up_to(bytes@, eps@, k) + piece(
                    bytes@,
                    eps@,
                    k,
                ));
                assert(out@ =~= pieces_up_to(bytes@, eps@, i as int));
            }
        }
        WrangeSet::from_members(out)
    }
}

} // verus!
