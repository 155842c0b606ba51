use vstd::prelude::*;

use crate::wrange::{
    lemma_intersection_exact, lemma_intersection_well_formed, lemma_normalized_idempotent,
    members_contain, members_well_formed, Wrange,
};

verus! {

/// Is every member of `a` also a member of `b`? Membership, not position or
/// multiplicity: a `WrangeSet` denotes the union of its members, so this is
/// the containment half of set equality.
pub open spec fn members_subset(a: Seq<Wrange>, b: Seq<Wrange>) -> bool {
    forall|i: int| 0 <= i < a.len() ==> b.contains(#[trigger] a[i])
}

/// A collection of wrapping ranges denoting the union of its members'
/// point-sets. Order and multiplicity of members carry no meaning beyond the
/// union they jointly denote; duplicate and overlapping members are legal.
#[derive(Debug)]
pub struct WrangeSet(pub(crate) Vec<Wrange>);

impl View for WrangeSet {
    type V = Seq<Wrange>;

    closed spec fn view(&self) -> Seq<Wrange> {
        self.0@
    }
}

impl WrangeSet {
    /// The members of `normalized`: each member normalized in place, with no
    /// merging, reordering, or removal.
    pub open spec fn normalized_spec(s: Seq<Wrange>) -> Seq<Wrange> {
        s.map_values(|w: Wrange| w.normalized_spec())
    }

    /// Pairwise intersection of one range against every member of `t`, in
    /// order.
    pub open spec fn row_spec(w: Wrange, t: Seq<Wrange>) -> Seq<Wrange>
        decreases t.len(),
    {
        if t.len() == 0 {
            Seq::empty()
        } else {
            Self::row_spec(w, t.drop_last()) + Wrange::intersection_spec(w, t.last())
        }
    }

    /// Pairwise intersection of every member of `s` against every member of
    /// `t`, rows concatenated in order.
    pub open spec fn rows_spec(s: Seq<Wrange>, t: Seq<Wrange>) -> Seq<Wrange>
        decreases s.len(),
    {
        if s.len() == 0 {
            Seq::empty()
        } else {
            Self::rows_spec(s.drop_last(), t) + Self::row_spec(s.last(), t)
        }
    }

    /// The members of `intersection`: intersection distributes over the
    /// union that a set denotes, so the result collects every pairwise
    /// intersection; a memberless operand yields the one-member set `{Empty}`.
    pub open spec fn intersection_spec(s: Seq<Wrange>, t: Seq<Wrange>) -> Seq<Wrange> {
        if s.len() == 0 || t.len() == 0 {
            seq![Wrange::Empty]
        } else {
            Self::rows_spec(s, t)
        }
    }

    /// A set with exactly the given members, in their order.
    pub(crate) fn from_members(v: Vec<Wrange>) -> (r: Self)
        ensures
            r@ == v@,
    {
        WrangeSet(v)
    }

    /// A set with the one given member.
    pub fn single(w: Wrange) -> (r: Self)
        ensures
            r@ == seq![w],
    {
        let mut v: Vec<Wrange> = Vec::new();
        v.push(w);
        proof {
            assert(v@ =~= seq![w]);
        }
        WrangeSet(v)
    }

    /// A set with the two given members, in order.
    pub fn pair(w0: Wrange, w1: Wrange) -> (r: Self)
        ensures
            r@ == seq![w0, w1],
    {
        let mut v: Vec<Wrange> = Vec::new();
        v.push(w0);
        v.push(w1);
        proof {
            assert(v@ =~= seq![w0, w1]);
        }
        WrangeSet(v)
    }

    /// Normalize every member in place; nothing is merged, reordered, or
    /// removed.
    pub fn normalized(self) -> (r: Self)
        ensures
            r@ == Self::normalized_spec(self@),
    {
        let mut out: Vec<Wrange> = Vec::new();
        let n = self.0.len();
        let mut i: usize = 0;
        while i < n
            invariant
                i <= n,
                n == self@.len(),
                out@ =~= Self::normalized_spec(self@.take(i as int)),
            decreases n - i,
        {
            out.push(self.0[i].normalized());
            i = i + 1;
            proof {
                assert(self@.take(i as int).drop_last() =~= self@.take(i as int - 1));
                assert(out@ =~= Self::normalized_spec(self@.take(i as int)));
            }
        }
        proof {
            assert(self@.take(n as int) =~= self@);
        }
        WrangeSet(out)
    }

    /// The members, as a vector in their stored order.
    pub fn to_vec(&self) -> (r: Vec<Wrange>)
        ensures
            r@ == self@,
    {
        let mut out: Vec<Wrange> = Vec::new();
        let n = self.0.len();
        let mut i: usize = 0;
        while i < n
            invariant
                i <= n,
                n == self@.len(),
                out@ =~= self@.take(i as int),
            decreases n - i,
        {
            out.push(self.0[i]);
            i = i + 1;
        }
        proof {
            assert(self@.take(n as int) =~= self@);
        }
        out
    }

    /// Union is concatenation of the member collections: a set's meaning is
    /// already the union of its members, so no further algebra is needed.
    pub fn union(a: &Self, b: &Self) -> (r: Self)
        ensures
            r@ == a@ + b@,
    {
        let mut out: Vec<Wrange> = Vec::new();
        let na = a.0.len();
        let mut i: usize = 0;
        while i < na
            invariant
                i <= na,
                na == a@.len(),
                out@ =~= a@.take(i as int),
            decreases na - i,
        {
            out.push(a.0[i]);
            i = i + 1;
        }
        let nb = b.0.len();
        let mut j: usize = 0;
        while j < nb
            invariant
                j <= nb,
                nb == b@.len(),
                out@ =~= a@ + b@.take(j as int),
            decreases nb - j,
        {
            out.push(b.0[j]);
            j = j + 1;
        }
        proof {
            assert(a@ + b@.take(nb as int) =~= a@ + b@);
        }
        WrangeSet(out)
    }

    /// For every member of `a` and every member of `b`, compute their
    /// pairwise intersection and collect all the results; if either operand
    /// has no members, the result is the one-member set `{Empty}`.
    pub fn intersection(a: &Self, b: &Self) -> (r: Self)
        ensures
            r@ == Self::intersection_spec(a@, b@),
    {
        let na = a.0.len();
        let nb = b.0.len();
        if na == 0 || nb == 0 {
            return Self::single(Wrange::Empty);
        }
        let mut out: Vec<Wrange> = Vec::new();
        let mut i: usize = 0;
        while i < na
            invariant
                i <= na,
                na == a@.len(),
                nb == b@.len(),
                out@ =~= Self::rows_spec(a@.take(i as int), b@),
            decreases na - i,
        {
            let mut j: usize = 0;
            while j < nb
                invariant
                    i < na,
                    j <= nb,
                    na == a@.len(),
                    nb == b@.len(),
                    out@ =~= Self::rows_spec(a@.take(i as int), b@) + Self::row_spec(
                        a@[i as int],
                        b@.take(j as int),
                    ),
                decreases nb - j,
            {
                let mut part = Wrange::intersection(&a.0[i], &b.0[j]);
                let np = part.0.len();
                let mut k: usize = 0;
                while k < np
                    invariant
                        k <= np,
                        np == part@.len(),
                        out@ =~= Self::rows_spec(a@.take(i as int), b@) + Self::row_spec(
                            a@[i as int],
                            b@.take(j as int),
                        ) + part@.take(k as int),
                    decreases np - k,
                {
                    out.push(part.0[k]);
                    k = k + 1;
                }
                j = j + 1;
                proof {
                    assert(part@.take(np as int) =~= part@);
                    assert(b@.take(j as int).drop_last() =~= b@.take(j as int - 1));
                    assert(b@.take(j as int).last() == b@[j as int - 1]);
                    assert(out@ =~= Self::rows_spec(a@.take(i as int), b@) + Self::row_spec(
                        a@[i as int],
                        b@.take(j as int),
                    ));
                }
            }
            i = i + 1;
            proof {
                assert(b@.take(nb as int) =~= b@);
                assert(a@.take(i as int).drop_last() =~= a@.take(i as int - 1));
                assert(a@.take(i as int).last() == a@[i as int - 1]);
                assert(out@ =~= Self::rows_spec(a@.take(i as int), b@));
            }
        }
        proof {
            assert(a@.take(na as int) =~= a@);
        }
        WrangeSet(out)
    }

    /// Is `w` a member of the vector `v`?
    fn vec_contains(v: &Vec<Wrange>, w: &Wrange) -> (r: bool)
        ensures
            r == v@.contains(*w),
    {
        let n = v.len();
        let mut i: usize = 0;
        while i < n
            invariant
                i <= n,
                n == v@.len(),
                forall|k: int| 0 <= k < i ==> v@[k] != *w,
            decreases n - i,
        {
            if v[i] == *w {
                return true;
            }
            i = i + 1;
        }
        false
    }

    /// Is every member of `a` also a member of `b`?
    fn vec_subset(a: &Vec<Wrange>, b: &Vec<Wrange>) -> (r: bool)
        ensures
            r == members_subset(a@, b@),
    {
        let n = a.len();
        let mut i: usize = 0;
        while i < n
            invariant
                i <= n,
                n == a@.len(),
                forall|k: int| 0 <= k < i ==> b@.contains(#[trigger] a@[k]),
            decreases n - i,
        {
            if !Self::vec_contains(b, &a[i]) {
                return false;
            }
            i = i + 1;
        }
        true
    }
}

/// Two sets are equal when they have the same members, whatever the order or
/// multiplicity: each denotes only the union of its members.
impl PartialEq for WrangeSet {
    fn eq(&self, other: &Self) -> (r: bool) {
        Self::vec_subset(&self.0, &other.0) && Self::vec_subset(&other.0, &self.0)
    }
}

impl vstd::std_specs::cmp::PartialEqSpecImpl for WrangeSet {
    open spec fn obeys_eq_spec() -> bool {
        true
    }

    open spec fn eq_spec(&self, other: &Self) -> bool {
        members_subset(self@, other@) && members_subset(other@, self@)
    }
}

impl From<Vec<Wrange>> for WrangeSet {
    fn from(v: Vec<Wrange>) -> (r: Self)
        ensures
            r@ == v@,
    {
        WrangeSet(v)
    }
}

impl vstd::std_specs::convert::FromSpecImpl<Vec<Wrange>> for WrangeSet {
    open spec fn obeys_from_spec() -> bool {
        false
    }

    open spec fn from_spec(v: Vec<Wrange>) -> Self {
        choose|s: WrangeSet| s@ == v@
    }
}

impl From<Wrange> for WrangeSet {
    fn from(w: Wrange) -> (r: Self)
        ensures
            r@ == seq![w],
    {
        Self::single(w)
    }
}

impl vstd::std_specs::convert::FromSpecImpl<Wrange> for WrangeSet {
    open spec fn obeys_from_spec() -> bool {
        false
    }

    open spec fn from_spec(w: Wrange) -> Self {
        choose|s: WrangeSet| s@ == seq![w]
    }
}

/// A one-member collection contains a point exactly when its member does.
proof fn lemma_members_contain_single(w: Wrange, t: u8)
    ensures
        members_contain(seq![w], t) <==> w.contains(t),
{
    let s = seq![w];
    if w.contains(t) {
        assert(s[0].contains(t));
    }
    if members_contain(s, t) {
        let i = choose|i: int| 0 <= i < s.len() && #[trigger] s[i].contains(t);
        assert(s[i] == w);
    }
}

/// Union of sets is union of the denoted point-sets: a concatenation
/// contains a point exactly when one of its halves does. Since
/// `WrangeSet::union` returns exactly the concatenation of the member
/// collections, this is the law for set union.
pub proof fn lemma_union_exact(a: Seq<Wrange>, b: Seq<Wrange>, t: u8)
    ensures
        members_contain(a + b, t) <==> (members_contain(a, t) || members_contain(b, t)),
{
    let c = a + b;
    if members_contain(a, t) {
        let i = choose|i: int| 0 <= i < a.len() && #[trigger] a[i].contains(t);
        assert(c[i].contains(t));
    }
    if members_contain(b, t) {
        let i = choose|i: int| 0 <= i < b.len() && #[trigger] b[i].contains(t);
        assert(c[a.len() + i].contains(t));
    }
    if members_contain(c, t) {
        let i = choose|i: int| 0 <= i < c.len() && #[trigger] c[i].contains(t);
        if i < a.len() {
            assert(a[i].contains(t));
        } else {
            assert(b[i - a.len()].contains(t));
        }
    }
}

/// One row of the pairwise intersection denotes the meet of its range's
/// points with the points of the whole other operand.
proof fn lemma_row_exact(w: Wrange, ts: Seq<Wrange>, t: u8)
    requires
        w.well_formed(),
        members_well_formed(ts),
    ensures
        members_contain(WrangeSet::row_spec(w, ts), t) <==> (w.contains(t) && members_contain(
            ts,
            t,
        )),
    decreases ts.len(),
{
    if ts.len() == 0 {
        assert(!members_contain(WrangeSet::row_spec(w, ts), t));
        assert(!members_contain(ts, t));
    } else {
        let init = ts.drop_last();
        let last = ts.last();
        assert(members_well_formed(init));
        assert(last.well_formed());
        lemma_row_exact(w, init, t);
        lemma_intersection_exact(w, last, t);
        lemma_union_exact(WrangeSet::row_spec(w, init), Wrange::intersection_spec(w, last), t);
        lemma_members_contain_single(last, t);
        assert(ts =~= init + seq![last]);
        lemma_union_exact(init, seq![last], t);
    }
}

/// The concatenated rows denote the meet of the two operands' points.
proof fn lemma_rows_exact(s: Seq<Wrange>, ts: Seq<Wrange>, t: u8)
    requires
        members_well_formed(s),
        members_well_formed(ts),
    ensures
        members_contain(WrangeSet::rows_spec(s, ts), t) <==> (members_contain(s, t)
            && members_contain(ts, t)),
    decreases s.len(),
{
    if s.len() == 0 {
        assert(!members_contain(WrangeSet::rows_spec(s, ts), t));
        assert(!members_contain(s, t));
    } else {
        let init = s.drop_last();
        let last = s.last();
        assert(members_well_formed(init));
        assert(last.well_formed());
        lemma_rows_exact(init, ts, t);
        lemma_row_exact(last, ts, t);
        lemma_union_exact(WrangeSet::rows_spec(init, ts), WrangeSet::row_spec(last, ts), t);
        lemma_members_contain_single(last, t);
        assert(s =~= init + seq![last]);
        lemma_union_exact(init, seq![last], t);
    }
}

/// Set intersection distributes over the union a set denotes: for operands
/// of well-formed members, a point lies in some member of
/// `WrangeSet::intersection` exactly when each operand has a member holding
/// it.
pub proof fn lemma_set_intersection_exact(s: Seq<Wrange>, ts: Seq<Wrange>, t: u8)
    requires
        members_well_formed(s),
        members_well_formed(ts),
    ensures
        members_contain(WrangeSet::intersection_spec(s, ts), t) <==> (members_contain(s, t)
            && members_contain(ts, t)),
{
    if s.len() == 0 || ts.len() == 0 {
        lemma_members_contain_single(Wrange::Empty, t);
    } else {
        lemma_rows_exact(s, ts, t);
    }
}

/// Concatenation keeps well-formedness of the members.
proof fn lemma_members_wf_concat(a: Seq<Wrange>, b: Seq<Wrange>)
    requires
        members_well_formed(a),
        members_well_formed(b),
    ensures
        members_well_formed(a + b),
{
    let c = a + b;
    assert forall|i: int| 0 <= i < c.len() implies (#[trigger] c[i]).well_formed() by {
        if i < a.len() {
            assert(c[i] == a[i]);
        } else {
            assert(c[i] == b[i - a.len()]);
        }
    }
}

/// Every member of one row of the pairwise intersection is well formed.
proof fn lemma_row_well_formed(w: Wrange, ts: Seq<Wrange>)
    requires
        w.well_formed(),
        members_well_formed(ts),
    ensures
        members_well_formed(WrangeSet::row_spec(w, ts)),
    decreases ts.len(),
{
    if ts.len() > 0 {
        let init = ts.drop_last();
        assert(members_well_formed(init));
        assert(ts.last().well_formed());
        lemma_row_well_formed(w, init);
        lemma_intersection_well_formed(w, ts.last());
        lemma_members_wf_concat(WrangeSet::row_spec(w, init), Wrange::intersection_spec(
            w,
            ts.last(),
        ));
    }
}

/// Every member of the concatenated rows is well formed.
proof fn lemma_rows_well_formed(s: Seq<Wrange>, ts: Seq<Wrange>)
    requires
        members_well_formed(s),
        members_well_formed(ts),
    ensures
        members_well_formed(WrangeSet::rows_spec(s, ts)),
    decreases s.len(),
{
    if s.len() > 0 {
        let init = s.drop_last();
        assert(members_well_formed(init));
        assert(s.last().well_formed());
        lemma_rows_well_formed(init, ts);
        lemma_row_well_formed(s.last(), ts);
        lemma_members_wf_concat(WrangeSet::rows_spec(init, ts), WrangeSet::row_spec(
            s.last(),
            ts,
        ));
    }
}

/// Set intersection keeps well-formedness of the members, so its results
/// can be intersected further.
pub proof fn lemma_set_intersection_well_formed(s: Seq<Wrange>, ts: Seq<Wrange>)
    requires
        members_well_formed(s),
        members_well_formed(ts),
    ensures
        members_well_formed(WrangeSet::intersection_spec(s, ts)),
{
    if s.len() == 0 || ts.len() == 0 {
        assert forall|i: int|
            0 <= i < seq![Wrange::Empty].len() implies (#[trigger] seq![Wrange::Empty][i]).well_formed() by {
            assert(seq![Wrange::Empty][i] == Wrange::Empty);
        }
    } else {
        lemma_rows_well_formed(s, ts);
    }
}

/// Set-level normalization is idempotent, member by member.
pub proof fn lemma_set_normalized_idempotent(s: Seq<Wrange>)
    ensures
        WrangeSet::normalized_spec(WrangeSet::normalized_spec(s)) =~= WrangeSet::normalized_spec(
            s,
        ),
{
    let n1 = WrangeSet::normalized_spec(s);
    let n2 = WrangeSet::normalized_spec(n1);
    assert forall|i: int| 0 <= i < s.len() implies n2[i] == n1[i] by {
        lemma_normalized_idempotent(s[i]);
    }
}

} // verus!
