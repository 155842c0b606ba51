//! Construction of small ranges from one-line text diagrams: markers `o`
//! (closed) and `x` (open) over a strip of `-` (covered) and ` ` (free)
//! cells, handy for writing range literals in tests.

use vstd::prelude::*;
use vstd::string::StringSliceAdditionalSpecFns;

use crate::bound::Bound;
use crate::wrange::Wrange;

verus! {

/// The byte value of `o`: a closed endpoint marker.
pub const CLOSED_LOWER: u8 = 111;

/// The byte value of `O`: a closed endpoint marker.
pub const CLOSED_UPPER: u8 = 79;

/// The byte value of `x`: an open endpoint marker.
pub const OPEN_LOWER: u8 = 120;

/// The byte value of `X`: an open endpoint marker.
pub const OPEN_UPPER: u8 = 88;

/// The byte value of `-`: a covered cell.
pub const COVERED: u8 = 45;

/// The byte value of a space: a free cell.
pub const FREE: u8 = 32;

/// Is the byte one of the endpoint markers?
pub open spec fn is_marker(b: u8) -> bool {
    b == CLOSED_LOWER || b == CLOSED_UPPER || b == OPEN_LOWER || b == OPEN_UPPER
}

/// Does the marker byte stand for a closed (inclusive) endpoint?
pub open spec fn marker_is_inclusive(b: u8) -> bool {
    b == CLOSED_LOWER || b == CLOSED_UPPER
}

/// The bound that an endpoint (position, marker byte) stands for.
pub open spec fn bound_of(e: (usize, u8)) -> Bound {
    if marker_is_inclusive(e.1) {
        Bound::Inclusive(e.0 as u8)
    } else {
        Bound::Exclusive(e.0 as u8)
    }
}

/// Every cell of `s` in `from..to` holds the byte `c`.
pub open spec fn uniform(s: Seq<u8>, from: int, to: int, c: u8) -> bool {
    forall|k: int| from <= k < to ==> s[k] == c
}

/// The endpoint markers of the diagram, in order of position.
pub open spec fn endpoints(s: Seq<u8>) -> Seq<(usize, u8)>
    decreases s.len(),
{
    if s.len() == 0 {
        Seq::empty()
    } else if is_marker(s.last()) {
        endpoints(s.drop_last()) + seq![(((s.len() - 1) as usize), s.last())]
    } else {
        endpoints(s.drop_last())
    }
}

/// Each listed endpoint sits inside the diagram, carries the marker byte
/// found there, and the list is strictly ordered by position.
pub proof fn lemma_endpoints_props(s: Seq<u8>)
    requires
        s.len() <= usize::MAX,
    ensures
        forall|i: int|
            0 <= i < endpoints(s).len() ==> {
                let e = #[trigger] endpoints(s)[i];
                &&& e.0 < s.len()
                &&& s[e.0 as int] == e.1
                &&& is_marker(e.1)
            },
        forall|i: int, j: int|
            0 <= i < j < endpoints(s).len() ==> (#[trigger] endpoints(s)[i]).0 < (
            #[trigger] endpoints(s)[j]).0,
    decreases s.len(),
{
    if s.len() > 0 {
        let init = s.drop_last();
        lemma_endpoints_props(init);
        let eps = endpoints(s);
        let epi = endpoints(init);
        assert forall|i: int| 0 <= i < eps.len() implies {
            let e = #[trigger] eps[i];
            &&& e.0 < s.len()
            &&& s[e.0 as int] == e.1
            &&& is_marker(e.1)
        } by {
            if i < epi.len() {
                assert(eps[i] == epi[i]);
                assert(init[epi[i].0 as int] == s[epi[i].0 as int]);
            } else {
                assert(is_marker(s.last()));
                assert(eps[i] == (((s.len() - 1) as usize), s.last()));
            }
        }
        assert forall|i: int, j: int| 0 <= i < j < eps.len() implies (#[trigger] eps[i]).0 < (
        #[trigger] eps[j]).0 by {
            if j < epi.len() {
                assert(eps[i] == epi[i]);
                assert(eps[j] == epi[j]);
            } else {
                assert(eps[i] == epi[i]);
                assert(epi[i].0 < init.len());
                assert(eps[j] == (((s.len() - 1) as usize), s.last()));
            }
        }
    }
}

/// Collect the endpoint markers of the diagram, in order.
pub(crate) fn find_endpoints(bytes: &[u8]) -> (r: Vec<(usize, u8)>)
    ensures
        r@ == endpoints(bytes@),
{
    let mut out: Vec<(usize, u8)> = Vec::new();
    let n = bytes.len();
    let mut i: usize = 0;
    while i < n
        invariant
            i <= n,
            n == bytes@.len(),
            out@ == endpoints(bytes@.take(i as int)),
        decreases n - i,
    {
        let b = bytes[i];
        if b == CLOSED_LOWER || b == CLOSED_UPPER || b == OPEN_LOWER || b == OPEN_UPPER {
            out.push((i, b));
        }
        i = i + 1;
        proof {
            assert(bytes@.take(i as int).drop_last() =~= bytes@.take(i as int - 1));
            assert(bytes@.take(i as int).last() == bytes@[i as int - 1]);
        }
    }
    proof {
        assert(bytes@.take(n as int) =~= bytes@);
    }
    out
}

/// Does every cell in `from..to` hold the byte `c`?
pub(crate) fn region_is(bytes: &[u8], from: usize, to: usize, c: u8) -> (r: bool)
    requires
        from <= to <= bytes@.len(),
    ensures
        r == uniform(bytes@, from as int, to as int, c),
{
    let mut i: usize = from;
    while i < to
        invariant
            from <= i <= to <= bytes@.len(),
            forall|k: int| from <= k < i ==> bytes@[k] == c,
        decreases to - i,
    {
        if bytes[i] != c {
            return false;
        }
        i = i + 1;
    }
    true
}

/// The bound that an endpoint stands for.
pub(crate) fn marker_bound(e: (usize, u8)) -> (r: Bound)
    ensures
        r == bound_of(e),
{
    if e.1 == CLOSED_LOWER || e.1 == CLOSED_UPPER {
        Bound::Inclusive(e.0 as u8)
    } else {
        Bound::Exclusive(e.0 as u8)
    }
}

/// Two markers lie in one of the two accepted layouts: the strip between
/// them covered and the strip outside them free, or the other way round.
pub open spec fn two_marker_layout_ok(s: Seq<u8>) -> bool {
    let p0 = endpoints(s)[0].0;
    let p1 = endpoints(s)[1].0;
    (uniform(s, p0 + 1, p1 as int, COVERED) && uniform(s, 0, p0 as int, FREE) && uniform(
        s,
        p1 + 1,
        s.len() as int,
        FREE,
    )) || (uniform(s, p0 + 1, p1 as int, FREE) && uniform(s, 0, p0 as int, COVERED) && uniform(
        s,
        p1 + 1,
        s.len() as int,
        COVERED,
    ))
}

/// A diagram `gfx` accepts: no marker over a uniform strip, one marker
/// anywhere, or two markers in an accepted layout.
pub open spec fn gfx_wf(s: Seq<u8>) -> bool {
    let eps = endpoints(s);
    if eps.len() == 0 {
        uniform(s, 0, s.len() as int, FREE) || uniform(s, 0, s.len() as int, COVERED)
    } else if eps.len() == 1 {
        true
    } else if eps.len() == 2 {
        two_marker_layout_ok(s)
    } else {
        false
    }
}

/// What `gfx` returns on an accepted diagram: an all-free strip is `Empty`
/// and an all-covered strip is `Full`; a lone marker is the single point at
/// its position; two markers span between them when the covered cells lie
/// between them, and span the other way round, wrapping, when the covered
/// cells lie outside them.
pub open spec fn gfx_spec(s: Seq<u8>) -> Wrange {
    let eps = endpoints(s);
    if eps.len() == 0 {
        if uniform(s, 0, s.len() as int, FREE) {
            Wrange::Empty
        } else {
            Wrange::Full
        }
    } else if eps.len() == 1 {
        Wrange::new_spec(bound_of(eps[0]), bound_of(eps[0]))
    } else {
        let p0 = eps[0];
        let p1 = eps[1];
        if uniform(s, p0.0 + 1, p1.0 as int, COVERED) && uniform(s, 0, p0.0 as int, FREE) && uniform(
            s,
            p1.0 + 1,
            s.len() as int,
            FREE,
        ) {
            Wrange::new_spec(bound_of(p0), bound_of(p1))
        } else {
            Wrange::new_spec(bound_of(p1), bound_of(p0))
        }
    }
}

/// Parse a one-line diagram into a single range.
pub fn gfx(s: &str) -> (r: Wrange)
    requires
        gfx_wf(s.spec_bytes()),
    ensures
        r == gfx_spec(s.spec_bytes()),
{
    let bytes = s.as_bytes();
    let n = bytes.len();
    let eps = find_endpoints(bytes);
    proof {
        assert(bytes@.len() <= usize::MAX);
        lemma_endpoints_props(bytes@);
    }
    if eps.len() == 0 {
        if region_is(bytes, 0, n, FREE) {
            Wrange::Empty
        } else {
            Wrange::Full
        }
    } else if eps.len() == 1 {
        let b = marker_bound(eps[0]);
        Wrange::new(b, b)
    } else {
        let p0 = eps[0];
        let p1 = eps[1];
        proof {
            assert(p0 == endpoints(bytes@)[0]);
            assert(p1 == endpoints(bytes@)[1]);
            assert(p0.0 < bytes@.len());
            assert(p1.0 < bytes@.len());
            assert(p0.0 < p1.0);
        }
        let middle_covered = region_is(bytes, p0.0 + 1, p1.0, COVERED);
        let left_free = region_is(bytes, 0, p0.0, FREE);
        let right_free = region_is(bytes, p1.0 + 1, n, FREE);
        if middle_covered && left_free && right_free {
            Wrange::new(marker_bound(p0), marker_bound(p1))
        } else {
            Wrange::new(marker_bound(p1), marker_bound(p0))
        }
    }
}

} // verus!
