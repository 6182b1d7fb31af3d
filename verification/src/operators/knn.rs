//! Exact (brute-force) k-nearest-neighbour search over an explicit
//! candidate set, typically the live entries of the mutation log.

use vstd::prelude::*;
use crate::types::{CandidateResult, pairs_view};
use crate::distance::{spec_sq_dist, sq_dist};
use crate::ranking::{
    ranked, unique_ids, spec_sorted, rank_candidates, lemma_spec_sorted_props,
};

verus! {

/// Candidate pairs all have the query's dimension.
pub open spec fn dims_match(q: Seq<i32>, cands: Seq<(u64, Vec<i32>)>) -> bool {
    forall|j: int| 0 <= j < cands.len() ==> (#[trigger] cands[j]).1@.len() == q.len()
}

/// Every candidate's true distance to the query fits the distance word.
pub open spec fn dists_fit(q: Seq<i32>, cands: Seq<(u64, Vec<i32>)>) -> bool {
    forall|j: int| 0 <= j < cands.len() ==> spec_sq_dist(q, (#[trigger] cands[j]).1@) <= u64::MAX
}

/// No candidate id occurs twice.
pub open spec fn unique_pair_ids(cands: Seq<(u64, Vec<i32>)>) -> bool {
    forall|i: int, j: int| 0 <= i < j < cands.len()
        ==> (#[trigger] cands[i]).0 != (#[trigger] cands[j]).0
}

/// Each candidate scored against the query, in candidate order.
pub open spec fn spec_scored(q: Seq<i32>, cands: Seq<(u64, Vec<i32>)>) -> Seq<CandidateResult> {
    Seq::new(cands.len(), |j: int| CandidateResult {
        id: cands[j].0,
        distance: spec_sq_dist(q, cands[j].1@) as u64,
    })
}

/// Each plain candidate scored against the query, in candidate order.
pub open spec fn spec_scored_plain(q: Seq<i32>, cands: Seq<(u64, Seq<i32>)>) -> Seq<CandidateResult> {
    Seq::new(cands.len(), |j: int| CandidateResult {
        id: cands[j].0,
        distance: spec_sq_dist(q, cands[j].1) as u64,
    })
}

/// The exact top-k over plain (id, embedding) values.
pub open spec fn spec_knn_plain(q: Seq<i32>, cands: Seq<(u64, Seq<i32>)>, k: int) -> Seq<CandidateResult> {
    let sorted = spec_sorted(spec_scored_plain(q, cands));
    if k <= sorted.len() {
        sorted.subrange(0, k)
    } else {
        sorted
    }
}

/// The top-k of a candidate set is the top-k of its plain view.
pub proof fn lemma_spec_knn_plain(q: Seq<i32>, cands: Seq<(u64, Vec<i32>)>, k: int)
    ensures
        spec_knn(q, cands, k) == spec_knn_plain(q, pairs_view(cands), k),
{
    assert(spec_scored(q, cands) =~= spec_scored_plain(q, pairs_view(cands)));
}

/// The exact top-k of the candidate set for one query: all candidates
/// scored, ranked, and cut to `k`.
pub open spec fn spec_knn(q: Seq<i32>, cands: Seq<(u64, Vec<i32>)>, k: int) -> Seq<CandidateResult> {
    let sorted = spec_sorted(spec_scored(q, cands));
    if k <= sorted.len() {
        sorted.subrange(0, k)
    } else {
        sorted
    }
}

/// The ranked-result invariants hold of `spec_knn`: ids unique, length at
/// most `k`, distances non-decreasing, and every entry is a scored
/// candidate.
pub proof fn lemma_spec_knn_props(q: Seq<i32>, cands: Seq<(u64, Vec<i32>)>, k: int)
    requires
        unique_pair_ids(cands),
        k >= 0,
    ensures
        ranked(spec_knn(q, cands, k)),
        unique_ids(spec_knn(q, cands, k)),
        spec_knn(q, cands, k).len() <= k,
        spec_knn(q, cands, k).len() == if k <= cands.len() { k } else { cands.len() as int },
        forall|i: int| 0 <= i < spec_knn(q, cands, k).len()
            ==> spec_scored(q, cands).contains(#[trigger] spec_knn(q, cands, k)[i]),
{
    let scored = spec_scored(q, cands);
    assert(unique_ids(scored));
    lemma_spec_sorted_props(scored);
    let sorted = spec_sorted(scored);
    let r = spec_knn(q, cands, k);
    assert forall|i: int| 0 <= i < r.len() implies scored.contains(#[trigger] r[i]) by {
        assert(r[i] == sorted[i]);
    }
}

fn score_candidates(query: &Vec<i32>, candidates: &Vec<(u64, Vec<i32>)>) -> (r: Vec<CandidateResult>)
    requires
        dims_match(query@, candidates@),
        dists_fit(query@, candidates@),
    ensures
        r@ == spec_scored(query@, candidates@),
{
    let mut r: Vec<CandidateResult> = Vec::new();
    let mut j: usize = 0;
    while j < candidates.len()
        invariant
            j <= candidates@.len(),
            dims_match(query@, candidates@),
            dists_fit(query@, candidates@),
            r@.len() == j,
            forall|i: int| 0 <= i < j ==> #[trigger] r@[i] == spec_scored(query@, candidates@)[i],
        decreases candidates@.len() - j,
    {
        let d = sq_dist(query, &candidates[j].1);
        r.push(CandidateResult { id: candidates[j].0, distance: d });
        j = j + 1;
    }
    proof {
        assert(r@ =~= spec_scored(query@, candidates@));
    }
    r
}

/// Exact top-k for one query vector over an explicit candidate set.
pub fn knn_for_query(query: &Vec<i32>, candidates: &Vec<(u64, Vec<i32>)>, k: usize) -> (r: Vec<CandidateResult>)
    requires
        dims_match(query@, candidates@),
        dists_fit(query@, candidates@),
    ensures
        r@ == spec_knn(query@, candidates@, k as int),
{
    let scored = score_candidates(query, candidates);
    let mut sorted = rank_candidates(&scored);
    if k < sorted.len() {
        sorted.truncate(k);
    }
    sorted
}

/// Exact top-k per query vector over an explicit candidate set
/// (id, embedding), as the log-derived branch of a query computes it.
///
/// The result is a function of the inputs alone: two invocations on
/// identical inputs return identical ordered output.
pub fn brute_force_knn(queries: &Vec<Vec<i32>>, candidates: &Vec<(u64, Vec<i32>)>, k: usize) -> (r: Vec<Vec<CandidateResult>>)
    requires
        forall|qi: int| 0 <= qi < queries@.len() ==> dims_match((#[trigger] queries@[qi])@, candidates@),
        forall|qi: int| 0 <= qi < queries@.len() ==> dists_fit((#[trigger] queries@[qi])@, candidates@),
    ensures
        r@.len() == queries@.len(),
        forall|qi: int| 0 <= qi < queries@.len()
            ==> (#[trigger] r@[qi])@ == spec_knn(queries@[qi]@, candidates@, k as int),
{
    let mut r: Vec<Vec<CandidateResult>> = Vec::new();
    let mut qi: usize = 0;
    while qi < queries.len()
        invariant
            qi <= queries@.len(),
            forall|i: int| 0 <= i < queries@.len() ==> dims_match((#[trigger] queries@[i])@, candidates@),
            forall|i: int| 0 <= i < queries@.len() ==> dists_fit((#[trigger] queries@[i])@, candidates@),
            r@.len() == qi,
            forall|i: int| 0 <= i < qi
                ==> (#[trigger] r@[i])@ == spec_knn(queries@[i]@, candidates@, k as int),
        decreases queries@.len() - qi,
    {
        let one = knn_for_query(&queries[qi], candidates, k);
        r.push(one);
        qi = qi + 1;
    }
    r
}

/// Invoking the exact search twice with identical inputs yields identical
/// ordered output: the contract pins the result to `spec_knn`, a function
/// of the inputs alone, with ties broken by id.
pub proof fn lemma_brute_force_idempotent(
    q: Seq<i32>,
    cands: Seq<(u64, Vec<i32>)>,
    k: int,
    r1: Seq<CandidateResult>,
    r2: Seq<CandidateResult>,
)
    requires
        r1 == spec_knn(q, cands, k),
        r2 == spec_knn(q, cands, k),
    ensures
        r1 == r2,
{
}

} // verus!
