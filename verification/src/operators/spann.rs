//! The partitioned-index search path: route each query to its nearest
//! partition centres, fetch the members of those partitions, score them
//! exactly (the exact search, `knn_for_query`, serves as the scorer),
//! and reconcile the per-partition top-k lists into one.

use vstd::prelude::*;
use crate::types::{CandidateResult, pairs_view};
use crate::distance::spec_sq_dist;
use crate::ranking::{ranked, unique_ids};
use crate::operators::knn::{
    dims_match, dists_fit, spec_knn, knn_for_query, spec_knn_plain, lemma_spec_knn_plain,
};
use crate::operators::merge::{spec_merge, merge_knn_results};
use crate::operators::projection::{
    lookup, spec_lookup, spec_lookup_plain, lemma_spec_lookup_plain, lemma_lookup_in,
};

verus! {

/// The ids of a ranked candidate sequence, in rank order.
pub open spec fn ids_of(s: Seq<CandidateResult>) -> Seq<u64> {
    s.map_values(|c: CandidateResult| c.id)
}

/// Coarse routing: the `n` nearest partition centres per query, ranked,
/// found by the exact search over the centre embeddings.
pub fn spann_centers_search(queries: &Vec<Vec<i32>>, centers: &Vec<(u64, Vec<i32>)>, n: usize) -> (r: Vec<Vec<u64>>)
    requires
        forall|qi: int| 0 <= qi < queries@.len() ==> dims_match((#[trigger] queries@[qi])@, centers@),
        forall|qi: int| 0 <= qi < queries@.len() ==> dists_fit((#[trigger] queries@[qi])@, centers@),
    ensures
        r@.len() == queries@.len(),
        forall|qi: int| 0 <= qi < queries@.len()
            ==> (#[trigger] r@[qi])@ == ids_of(spec_knn(queries@[qi]@, centers@, n as int)),
{
    let mut r: Vec<Vec<u64>> = Vec::new();
    let mut qi: usize = 0;
    while qi < queries.len()
        invariant
            qi <= queries@.len(),
            forall|i: int| 0 <= i < queries@.len() ==> dims_match((#[trigger] queries@[i])@, centers@),
            forall|i: int| 0 <= i < queries@.len() ==> dists_fit((#[trigger] queries@[i])@, centers@),
            r@.len() == qi,
            forall|i: int| 0 <= i < qi
                ==> (#[trigger] r@[i])@ == ids_of(spec_knn(queries@[i]@, centers@, n as int)),
        decreases queries@.len() - qi,
    {
        let top = knn_for_query(&queries[qi], centers, n);
        let mut ids: Vec<u64> = Vec::new();
        let mut w: usize = 0;
        while w < top.len()
            invariant
                w <= top@.len(),
                ids@.len() == w,
                forall|v: int| 0 <= v < w ==> #[trigger] ids@[v] == top@[v].id,
            decreases top@.len() - w,
        {
            ids.push(top[w].id);
            w = w + 1;
        }
        proof {
            assert(ids@ =~= ids_of(spec_knn(queries@[qi as int]@, centers@, n as int)));
        }
        r.push(ids);
        qi = qi + 1;
    }
    r
}

/// First posting list held for `center` at or past position `i`.
pub open spec fn posting_from(posting: Seq<(u64, Vec<u64>)>, center: u64, i: int) -> Option<Seq<u64>>
    decreases posting.len() - i when 0 <= i <= posting.len()
{
    if i >= posting.len() {
        None
    } else if posting[i].0 == center {
        Some(posting[i].1@)
    } else {
        posting_from(posting, center, i + 1)
    }
}

/// The member ids of a partition, if the index holds it.
pub open spec fn spec_posting(posting: Seq<(u64, Vec<u64>)>, center: u64) -> Option<Seq<u64>> {
    posting_from(posting, center, 0)
}

proof fn lemma_posting_skip(posting: Seq<(u64, Vec<u64>)>, center: u64, t: int)
    requires
        0 <= t <= posting.len(),
        forall|w: int| 0 <= w < t ==> (#[trigger] posting[w]).0 != center,
    ensures
        spec_posting(posting, center) == posting_from(posting, center, t),
    decreases t,
{
    if t > 0 {
        lemma_posting_skip(posting, center, t - 1);
    }
}

/// Fetches the member ids of one selected partition.
pub fn spann_fetch_posting_list(posting: &Vec<(u64, Vec<u64>)>, center: u64) -> (r: Option<Vec<u64>>)
    ensures
        match r {
            Some(members) => spec_posting(posting@, center) == Some(members@),
            None => spec_posting(posting@, center) is None,
        },
{
    let mut t: usize = 0;
    while t < posting.len()
        invariant
            t <= posting@.len(),
            forall|w: int| 0 <= w < t ==> (#[trigger] posting@[w]).0 != center,
        decreases posting@.len() - t,
    {
        if posting[t].0 == center {
            let members = posting[t].1.clone();
            proof {
                assert(members@ =~= posting@[t as int].1@);
                lemma_posting_skip(posting@, center, t as int);
            }
            return Some(members);
        }
        t = t + 1;
    }
    proof {
        lemma_posting_skip(posting@, center, posting@.len() as int);
    }
    None
}

/// The (id, embedding) pairs a partition's member ids select from the
/// record store, in member order; a member the store does not hold
/// carries no pair.
pub open spec fn spec_member_pairs(store: Seq<(u64, Seq<i32>)>, members: Seq<u64>) -> Seq<(u64, Seq<i32>)>
    decreases members.len(),
{
    if members.len() == 0 {
        Seq::empty()
    } else {
        let rest = spec_member_pairs(store, members.drop_last());
        match spec_lookup_plain(store, members.last()) {
            Some(e) => rest.push((members.last(), e)),
            None => rest,
        }
    }
}

/// Scores one query against exactly the members of a selected
/// partition: each member's embedding is fetched from the record store
/// and the exact search ranks them, cut to `k`.
#[verifier::loop_isolation(false)]
pub fn spann_brute_force_posting_list(
    query: &Vec<i32>,
    members: &Vec<u64>,
    store: &Vec<(u64, Vec<i32>)>,
    k: usize,
) -> (r: Vec<CandidateResult>)
    requires
        dims_match(query@, store@),
        dists_fit(query@, store@),
        forall|i: int, j: int| 0 <= i < j < members@.len() ==> members@[i] != members@[j],
    ensures
        r@ == spec_knn_plain(query@, spec_member_pairs(pairs_view(store@), members@), k as int),
{
    let mut cands: Vec<(u64, Vec<i32>)> = Vec::new();
    let mut t: usize = 0;
    proof {
        assert(pairs_view(cands@) =~= Seq::<(u64, Seq<i32>)>::empty());
    }
    while t < members.len()
        invariant
            t <= members@.len(),
            pairs_view(cands@) == spec_member_pairs(pairs_view(store@), members@.take(t as int)),
            forall|i: int| 0 <= i < cands@.len()
                ==> exists|w: int| 0 <= w < t && members@[w] == (#[trigger] cands@[i]).0,
            dims_match(query@, cands@),
            dists_fit(query@, cands@),
            forall|i: int, j: int| 0 <= i < j < cands@.len()
                ==> (#[trigger] cands@[i]).0 != (#[trigger] cands@[j]).0,
        decreases members@.len() - t,
    {
        proof {
            assert(members@.take(t + 1 as int).drop_last() =~= members@.take(t as int));
            assert(members@.take(t + 1 as int).last() == members@[t as int]);
            lemma_spec_lookup_plain(store@, members@[t as int]);
        }
        let ghost prev = cands@;
        match lookup(store, members[t]) {
            Some(e) => {
                proof {
                    lemma_lookup_in(store@, members@[t as int], 0);
                }
                cands.push((members[t], e));
                proof {
                    assert(pairs_view(cands@) =~= pairs_view(prev).push((members@[t as int], e@)));
                    let n = cands@.len();
                    assert forall|i: int| 0 <= i < n implies
                        exists|w: int| 0 <= w < t + 1 && members@[w] == (#[trigger] cands@[i]).0 by {
                        if i < n - 1 {
                            assert(cands@[i] == prev[i]);
                            let w = choose|w: int| 0 <= w < t && members@[w] == prev[i].0;
                            assert(members@[w] == cands@[i].0);
                        } else {
                            assert(members@[t as int] == cands@[i].0);
                        }
                    }
                    assert forall|i: int, j: int| 0 <= i < j < n implies
                        (#[trigger] cands@[i]).0 != (#[trigger] cands@[j]).0 by {
                        if j == n - 1 {
                            let w = choose|w: int| 0 <= w < t && members@[w] == cands@[i].0;
                            assert(members@[w] != members@[t as int]);
                        }
                    }
                }
            },
            None => {},
        }
        t = t + 1;
    }
    proof {
        assert(members@.take(t as int) =~= members@);
    }
    let r = knn_for_query(query, &cands, k);
    proof {
        lemma_spec_knn_plain(query@, cands@, k as int);
    }
    r
}

/// The per-partition top-k lists reconciled left to right with the
/// ranked union rule, cut to `k` at every step.
pub open spec fn spec_spann_merge(lists: Seq<Vec<CandidateResult>>, k: int) -> Seq<CandidateResult>
    decreases lists.len(),
{
    if lists.len() == 0 {
        Seq::empty()
    } else {
        spec_merge(spec_spann_merge(lists.drop_last(), k), lists.last()@, k)
    }
}

/// Merges the per-partition top-k lists for one query into a single
/// ranked top-k: union by id, ranked ascending with ties broken by id,
/// cut to `k`. For a duplicate id — partitions of one segment score a
/// record identically — the entry already selected is kept.
#[verifier::loop_isolation(false)]
pub fn spann_knn_merge(lists: &Vec<Vec<CandidateResult>>, k: usize) -> (r: Vec<CandidateResult>)
    requires
        forall|t: int| 0 <= t < lists@.len() ==> unique_ids((#[trigger] lists@[t])@),
    ensures
        r@ == spec_spann_merge(lists@, k as int),
        ranked(r@),
        unique_ids(r@),
        r@.len() <= k,
{
    let mut acc: Vec<CandidateResult> = Vec::new();
    proof {
        assert(lists@.take(0) =~= Seq::<Vec<CandidateResult>>::empty());
    }
    let mut t: usize = 0;
    while t < lists.len()
        invariant
            t <= lists@.len(),
            acc@ == spec_spann_merge(lists@.take(t as int), k as int),
            ranked(acc@),
            unique_ids(acc@),
            acc@.len() <= k,
        decreases lists@.len() - t,
    {
        proof {
            assert(lists@.take(t + 1 as int).drop_last() =~= lists@.take(t as int));
            assert(lists@.take(t + 1 as int).last() == lists@[t as int]);
        }
        let merged = merge_knn_results(&acc, &lists[t], k);
        acc = merged;
        t = t + 1;
    }
    proof {
        assert(lists@.take(lists@.len() as int) =~= lists@);
    }
    acc
}

} // verus!
