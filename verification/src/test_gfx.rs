//! A stricter diagram reader for fixtures of a fixed width: the strip is
//! always eight cells wide and carries at least one endpoint marker.

use vstd::prelude::*;
use vstd::string::StringSliceAdditionalSpecFns;

use crate::gfx::{
    endpoints, find_endpoints, gfx_spec, lemma_endpoints_props, marker_bound, region_is,
    two_marker_layout_ok, COVERED, FREE,
};
use crate::wrange::Wrange;

verus! {

/// The width every fixture diagram has.
pub const LEN: usize = 8;

/// A diagram this reader accepts: exactly eight cells, with one marker
/// anywhere or two markers in one of the two accepted layouts.
pub open spec fn gfx_fixed_wf(s: Seq<u8>) -> bool {
    &&& s.len() == LEN
    &&& (endpoints(s).len() == 1 || (endpoints(s).len() == 2 && two_marker_layout_ok(s)))
}

/// Parse an eight-cell diagram with one or two markers into a single range.
pub fn gfx(s: &str) -> (r: Wrange)
    requires
        gfx_fixed_wf(s.spec_bytes()),
    ensures
        r == gfx_spec(s.spec_bytes()),
{
    let bytes = s.as_bytes();
    let eps = find_endpoints(bytes);
    proof {
        assert(bytes@.len() <= usize::MAX);
        lemma_endpoints_props(bytes@);
    }
    if eps.len() == 1 {
        let b = marker_bound(eps[0]);
        Wrange::new(b, b)
    } else {
        let p0 = eps[0];
        let p1 = eps[1];
        proof {
            assert(p0 == endpoints(bytes@)[0]);
            assert(p1 == endpoints(bytes@)[1]);
            assert(p0.0 < bytes@.len());
            assert(p1.0 < bytes@.len());
            assert(p0.0 < p1.0);
        }
        let middle_covered = region_is(bytes, p0.0 + 1, p1.0, COVERED);
        let left_free = region_is(bytes, 0, p0.0, FREE);
        let right_free = region_is(bytes, p1.0 + 1, bytes.len(), FREE);
        if middle_covered && left_free && right_free {
            Wrange::new(marker_bound(p0), marker_bound(p1))
        } else {
            Wrange::new(marker_bound(p1), marker_bound(p0))
        }
    }
}

} // verus!
