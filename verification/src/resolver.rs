//! The identity-resolution policy: one metric, one threshold, one
//! comparison direction.
//!
//! A face starts unassigned and ends in exactly one of two terminal
//! states: `Matched` adopts the person of the nearest already-identified
//! face, `NewPerson` founds a fresh cluster. The boundary is part of the
//! contract: a nearest distance equal to the threshold still matches —
//! the comparator is `<=`, never `<`.

use vstd::prelude::*;
use crate::fixedpoint::{coords_bounded, sqrt_floor, COORD_LIMIT, DIM_LIMIT, FIXED_SCALE};
use crate::utils::{
    cosine_distance, euclidean_distance, spec_dist_sq, spec_scaled_cosine,
};

verus! {

/// Which distance the similarity index ranks by. Never mixed within one
/// query path.
#[derive(Clone, Copy, PartialEq, Eq, Structural, Debug)]
pub enum Metric {
    Cosine,
    Euclidean,
}

/// Distance between two embeddings under a metric, at scale
/// `FIXED_SCALE`. Cosine distance is one minus cosine similarity.
pub open spec fn spec_metric_distance(m: Metric, a: Seq<i64>, b: Seq<i64>) -> int {
    match m {
        Metric::Cosine => FIXED_SCALE - spec_scaled_cosine(a, b),
        Metric::Euclidean => sqrt_floor(spec_dist_sq(a, b)),
    }
}

pub fn metric_distance(m: &Metric, a: &Vec<i64>, b: &Vec<i64>) -> (r: i64)
    requires
        a@.len() == b@.len(),
        a@.len() <= DIM_LIMIT,
        coords_bounded(a@, COORD_LIMIT as int),
        coords_bounded(b@, COORD_LIMIT as int),
    ensures
        r == spec_metric_distance(*m, a@, b@),
{
    match m {
        Metric::Cosine => cosine_distance(a, b),
        Metric::Euclidean => euclidean_distance(a, b),
    }
}

/// The resolution policy: metric, threshold, and the `<=` comparison.
#[derive(Clone, Copy, PartialEq, Eq, Structural, Debug)]
pub struct MatchPolicy {
    pub metric: Metric,
    pub threshold: i64,
}

/// The canonical policy: cosine distance at most one half.
pub fn canonical_policy() -> (r: MatchPolicy)
    ensures
        r.metric == Metric::Cosine,
        r.threshold == FIXED_SCALE / 2,
{
    MatchPolicy { metric: Metric::Cosine, threshold: FIXED_SCALE / 2 }
}

/// Terminal state of one face's resolution.
#[derive(Clone, Copy, PartialEq, Eq, Structural, Debug)]
pub enum Resolution {
    /// The face joins an existing person cluster.
    Matched(i32),
    /// A fresh person cluster is founded with this id.
    NewPerson(i32),
}

/// The resolution decision: match the nearest already-identified
/// neighbor when its distance is within the threshold, found a new
/// cluster otherwise (also when there is no neighbor at all).
pub open spec fn spec_resolve_match(
    nearest: Option<(i32, i64)>,
    policy: MatchPolicy,
    fresh_id: i32,
) -> Resolution {
    match nearest {
        Some((pid, d)) => if d <= policy.threshold {
            Resolution::Matched(pid)
        } else {
            Resolution::NewPerson(fresh_id)
        },
        None => Resolution::NewPerson(fresh_id),
    }
}

/// Decide one face, given the nearest identified neighbor (person id
/// and distance) reported by the similarity index.
pub fn resolve_match(nearest: Option<(i32, i64)>, policy: &MatchPolicy, fresh_id: i32) -> (r:
    Resolution)
    ensures
        r == spec_resolve_match(nearest, *policy, fresh_id),
{
    match nearest {
        Some((pid, d)) => if d <= policy.threshold {
            Resolution::Matched(pid)
        } else {
            Resolution::NewPerson(fresh_id)
        },
        None => Resolution::NewPerson(fresh_id),
    }
}

/// The threshold boundary matches: a neighbor at distance exactly the
/// threshold is adopted; one unit beyond founds a new cluster.
pub proof fn lemma_threshold_boundary(pid: i32, d: i64, policy: MatchPolicy, fresh_id: i32)
    ensures
        d <= policy.threshold ==> spec_resolve_match(Some((pid, d)), policy, fresh_id)
            == Resolution::Matched(pid),
        d > policy.threshold ==> spec_resolve_match(Some((pid, d)), policy, fresh_id)
            == Resolution::NewPerson(fresh_id),
{
}

/// Resolution is a function of the neighbor, the policy and the fresh
/// id alone: two decisions over the same inputs coincide.
pub proof fn lemma_resolution_deterministic(
    nearest: Option<(i32, i64)>,
    policy: MatchPolicy,
    fresh_id: i32,
    r1: Resolution,
    r2: Resolution,
)
    requires
        r1 == spec_resolve_match(nearest, policy, fresh_id),
        r2 == spec_resolve_match(nearest, policy, fresh_id),
    ensures
        r1 == r2,
{
}

} // verus!
