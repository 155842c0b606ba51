//! An algebra of "wrapping ranges": intervals over an ordered domain that
//! may either be a normal contiguous interval or one that wraps past the
//! domain's maximum back to its minimum.

pub mod ascii;

mod bound;
pub use bound::{above, below, Bound, Bounds};

pub mod gfx;

pub mod test_gfx;

mod wrange;
pub use crate::wrange::{
    lemma_degenerate_collapse, lemma_exclusive_wins_at_tie, lemma_intersection_empty_annihilates,
    lemma_intersection_exact, lemma_intersection_full_identity, lemma_intersection_symmetric,
    lemma_intersection_well_formed, lemma_new_well_formed, lemma_normalized_idempotent,
    lemma_normalized_well_formed, members_contain, members_well_formed, Wrange,
};

mod wrange_set;
pub use wrange_set::{
    lemma_set_intersection_exact, lemma_set_intersection_well_formed,
    lemma_set_normalized_idempotent, lemma_union_exact,
    members_subset, WrangeSet,
};
