//! Projection into the externally visible result shape, honouring the
//! query's `include_embeddings` flag, and the final limit to k entries.

use vstd::prelude::*;
use crate::types::{CandidateResult, OutputResult, emb_view, pairs_view};

verus! {

/// First pair carrying `id` at or past position `i`, if any.
pub open spec fn lookup_from(pairs: Seq<(u64, Vec<i32>)>, id: u64, i: int) -> Option<Seq<i32>>
    decreases pairs.len() - i when 0 <= i <= pairs.len()
{
    if i >= pairs.len() {
        None
    } else if pairs[i].0 == id {
        Some(pairs[i].1@)
    } else {
        lookup_from(pairs, id, i + 1)
    }
}

/// The embedding held for `id`, if any.
pub open spec fn spec_lookup(pairs: Seq<(u64, Vec<i32>)>, id: u64) -> Option<Seq<i32>> {
    lookup_from(pairs, id, 0)
}

proof fn lemma_lookup_skip(pairs: Seq<(u64, Vec<i32>)>, id: u64, t: int)
    requires
        0 <= t <= pairs.len(),
        forall|w: int| 0 <= w < t ==> (#[trigger] pairs[w]).0 != id,
    ensures
        spec_lookup(pairs, id) == lookup_from(pairs, id, t),
    decreases t,
{
    if t > 0 {
        lemma_lookup_skip(pairs, id, t - 1);
    }
}

/// First plain pair carrying `id` at or past position `i`, if any.
pub open spec fn plain_lookup_from(pairs: Seq<(u64, Seq<i32>)>, id: u64, i: int) -> Option<Seq<i32>>
    decreases pairs.len() - i when 0 <= i <= pairs.len()
{
    if i >= pairs.len() {
        None
    } else if pairs[i].0 == id {
        Some(pairs[i].1)
    } else {
        plain_lookup_from(pairs, id, i + 1)
    }
}

/// The embedding a plain pair sequence holds for `id`, if any.
pub open spec fn spec_lookup_plain(pairs: Seq<(u64, Seq<i32>)>, id: u64) -> Option<Seq<i32>> {
    plain_lookup_from(pairs, id, 0)
}

proof fn lemma_lookup_plain_from(pairs: Seq<(u64, Vec<i32>)>, id: u64, i: int)
    requires
        0 <= i <= pairs.len(),
    ensures
        lookup_from(pairs, id, i) == plain_lookup_from(pairs_view(pairs), id, i),
    decreases pairs.len() - i,
{
    if i < pairs.len() {
        assert(pairs_view(pairs)[i] == (pairs[i].0, pairs[i].1@));
        lemma_lookup_plain_from(pairs, id, i + 1);
    }
}

/// A lookup sees only the plain values of the pairs.
pub proof fn lemma_spec_lookup_plain(pairs: Seq<(u64, Vec<i32>)>, id: u64)
    ensures
        spec_lookup(pairs, id) == spec_lookup_plain(pairs_view(pairs), id),
{
    lemma_lookup_plain_from(pairs, id, 0);
}

/// A held embedding is one of the pairs' embeddings, under the id
/// looked up.
pub proof fn lemma_lookup_in(pairs: Seq<(u64, Vec<i32>)>, id: u64, i: int)
    requires
        0 <= i <= pairs.len(),
    ensures
        match lookup_from(pairs, id, i) {
            Some(e) => exists|j: int| i <= j < pairs.len()
                && (#[trigger] pairs[j]).0 == id && pairs[j].1@ == e,
            None => true,
        },
    decreases pairs.len() - i,
{
    if i < pairs.len() && pairs[i].0 != id {
        lemma_lookup_in(pairs, id, i + 1);
    }
}

/// The embedding attached to a result id, over plain values: the log's
/// newest embedding if the log has one, otherwise the record store's.
pub open spec fn spec_embedding_plain(live: Seq<(u64, Seq<i32>)>, store: Seq<(u64, Seq<i32>)>, id: u64) -> Option<Seq<i32>> {
    match spec_lookup_plain(live, id) {
        Some(e) => Some(e),
        None => spec_lookup_plain(store, id),
    }
}

/// The embedding attached to a result id: the log's newest embedding if
/// the log has one, otherwise the record store's.
pub open spec fn spec_embedding_of(live: Seq<(u64, Vec<i32>)>, store: Seq<(u64, Vec<i32>)>, id: u64) -> Option<Seq<i32>> {
    match spec_lookup(live, id) {
        Some(e) => Some(e),
        None => spec_lookup(store, id),
    }
}

pub(crate) fn lookup(pairs: &Vec<(u64, Vec<i32>)>, id: u64) -> (r: Option<Vec<i32>>)
    ensures
        emb_view(r) == spec_lookup(pairs@, id),
{
    let mut t: usize = 0;
    while t < pairs.len()
        invariant
            t <= pairs@.len(),
            forall|w: int| 0 <= w < t ==> (#[trigger] pairs@[w]).0 != id,
        decreases pairs@.len() - t,
    {
        if pairs[t].0 == id {
            let c = pairs[t].1.clone();
            proof {
                assert(c@ =~= pairs@[t as int].1@);
                lemma_lookup_skip(pairs@, id, t as int);
            }
            return Some(c);
        }
        t = t + 1;
    }
    proof {
        lemma_lookup_skip(pairs@, id, pairs@.len() as int);
    }
    None
}

/// Maps ranked candidates into the externally visible shape. When the
/// query asked for embeddings, each result carries the embedding held
/// for its id (the log's newest first, else the record store's); when
/// not, no embedding is attached. Order, ids and distances are kept.
pub fn project_results(
    results: &Vec<CandidateResult>,
    include_embeddings: bool,
    live: &Vec<(u64, Vec<i32>)>,
    store: &Vec<(u64, Vec<i32>)>,
) -> (r: Vec<OutputResult>)
    ensures
        r@.len() == results@.len(),
        forall|i: int| 0 <= i < results@.len()
            ==> (#[trigger] r@[i]).id == results@[i].id
                && r@[i].distance == results@[i].distance
                && emb_view(r@[i].embedding) == (if include_embeddings {
                    spec_embedding_of(live@, store@, results@[i].id)
                } else {
                    None::<Seq<i32>>
                }),
{
    let mut r: Vec<OutputResult> = Vec::new();
    let mut t: usize = 0;
    while t < results.len()
        invariant
            t <= results@.len(),
            r@.len() == t,
            forall|i: int| 0 <= i < t
                ==> (#[trigger] r@[i]).id == results@[i].id
                    && r@[i].distance == results@[i].distance
                    && emb_view(r@[i].embedding) == (if include_embeddings {
                        spec_embedding_of(live@, store@, results@[i].id)
                    } else {
                        None::<Seq<i32>>
                    }),
        decreases results@.len() - t,
    {
        let c = &results[t];
        let embedding: Option<Vec<i32>> = if include_embeddings {
            match lookup(live, c.id) {
                Some(e) => Some(e),
                None => lookup(store, c.id),
            }
        } else {
            None
        };
        r.push(OutputResult { id: c.id, distance: c.distance, embedding });
        t = t + 1;
    }
    r
}

/// Fetches the embedding held for each requested id, in request order;
/// an id the store does not hold yields no embedding.
pub fn get_vectors_op(store: &Vec<(u64, Vec<i32>)>, ids: &Vec<u64>) -> (r: Vec<(u64, Option<Vec<i32>>)>)
    ensures
        r@.len() == ids@.len(),
        forall|i: int| 0 <= i < ids@.len()
            ==> (#[trigger] r@[i]).0 == ids@[i]
                && emb_view(r@[i].1) == spec_lookup(store@, ids@[i]),
{
    let mut r: Vec<(u64, Option<Vec<i32>>)> = Vec::new();
    let mut t: usize = 0;
    while t < ids.len()
        invariant
            t <= ids@.len(),
            r@.len() == t,
            forall|i: int| 0 <= i < t
                ==> (#[trigger] r@[i]).0 == ids@[i]
                    && emb_view(r@[i].1) == spec_lookup(store@, ids@[i]),
        decreases ids@.len() - t,
    {
        let e = lookup(store, ids[t]);
        r.push((ids[t], e));
        t = t + 1;
    }
    r
}

/// The number of records the store holds.
pub fn count_records(store: &Vec<(u64, Vec<i32>)>) -> (r: usize)
    ensures
        r == store@.len(),
{
    store.len()
}

/// Truncates a ranked sequence to at most `k` entries; a no-op when it
/// already holds no more than `k`.
pub fn limit_results(results: Vec<OutputResult>, k: usize) -> (r: Vec<OutputResult>)
    ensures
        k <= results@.len() ==> r@ == results@.subrange(0, k as int),
        k > results@.len() ==> r@ == results@,
{
    let mut v = results;
    if k < v.len() {
        v.truncate(k);
    }
    v
}

} // verus!
