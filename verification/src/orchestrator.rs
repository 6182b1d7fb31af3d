//! The per-query state machine: validate, resolve the segment, fan out
//! the log-derived and index-derived search branches, merge, project,
//! limit. One instance serves one query and is not reused.
//!
//! The machine is driven by events (branch completions, failures, the
//! deadline); the surrounding runtime performs the dispatched actions and
//! hands the outcomes back. Any branch failure fails the whole query:
//! partial results are never returned.

use vstd::prelude::*;
use crate::errors::QueryError;
use crate::types::{CandidateResult, LogRecord, OutputResult, emb_view, records_view, pairs_view};
use crate::distance::spec_sq_dist;
use crate::ranking::{key_lt, ranked, unique_ids};
use crate::validate::{uuid_ok, segment_id_is_valid};
use crate::operators::knn::{
    dims_match, dists_fit, unique_pair_ids, knn_for_query, lemma_spec_knn_props,
    spec_knn_plain, lemma_spec_knn_plain,
};
use crate::operators::merge::{spec_merge, merge_knn_results};
use crate::operators::filter::{allowed_view, passes, spec_filter, filter_candidates, lemma_spec_filter_props};
use crate::operators::log::{
    seqs_increasing, compact_log, live_candidates, tombstones, derived_from, matches_some,
    rec_matches, unique_rec_ids, deleted_in_log, spec_compact, spec_live_pairs, spec_tombs,
};
use crate::operators::projection::{
    project_results, limit_results, spec_embedding_of, spec_embedding_plain,
    lemma_spec_lookup_plain,
};

verus! {

/// An incoming query, immutable once the orchestrator is constructed.
pub struct QueryParams {
    pub vectors: Vec<Vec<i32>>,
    pub k: usize,
    pub include_embeddings: bool,
    pub segment_id: String,
    pub allowed_ids: Option<Vec<u64>>,
}

/// What segment resolution yields: the compaction watermark and the
/// record store's (id, embedding) pairs.
pub struct SegmentInfo {
    pub watermark: u64,
    pub store: Vec<(u64, Vec<i32>)>,
}

/// What the runtime is asked to perform next.
#[derive(Clone, Copy, Debug, PartialEq, Eq, Structural)]
pub enum OrchAction {
    DispatchResolve,
    DispatchLogPull,
    DispatchIndexSearch,
}

/// Every log embedding has each query's dimension and a distance that
/// fits the distance word.
pub open spec fn records_fit(vectors: Seq<Vec<i32>>, records: Seq<LogRecord>) -> bool {
    forall|qi: int, j: int|
        0 <= qi < vectors.len() && 0 <= j < records.len()
        ==> (match emb_view((#[trigger] records[j]).embedding) {
            Some(e) => e.len() == (#[trigger] vectors[qi])@.len()
                && spec_sq_dist(vectors[qi]@, e) <= u64::MAX,
            None => true,
        })
}

/// One index-derived ranked list per query, each with unique ids.
pub open spec fn index_results_wf(vectors: Seq<Vec<i32>>, index: Seq<Vec<CandidateResult>>) -> bool {
    index.len() == vectors.len()
        && forall|qi: int| 0 <= qi < index.len() ==> unique_ids((#[trigger] index[qi])@)
}

/// The ranked-result invariants of one final per-query sequence: at most
/// k entries, unique ids, distances non-decreasing, and every id inside
/// the allow-list when one was supplied.
pub open spec fn result_wf(out: Seq<OutputResult>, k: int, allowed: Option<Seq<u64>>) -> bool {
    &&& out.len() <= k
    &&& (forall|i: int, j: int| 0 <= i < j < out.len()
        ==> (#[trigger] out[i]).id != (#[trigger] out[j]).id
            && out[i].distance <= out[j].distance)
    &&& (match allowed {
        Some(a) => forall|i: int| 0 <= i < out.len() ==> a.contains((#[trigger] out[i]).id),
        None => true,
    })
}

/// The merged ranked top-k the plan yields for one query: the log view
/// compacted at the watermark, its live entries searched exactly, both
/// that list and the index-derived list filtered by the allow-list and
/// the tombstones, and the union cut to `k` — a function of the raw
/// inputs alone.
pub open spec fn spec_plan_merged(
    q: Seq<i32>,
    k: int,
    allowed: Option<Seq<u64>>,
    recs: Seq<(u64, u64, Option<Seq<i32>>)>,
    bound: u64,
    index: Seq<CandidateResult>,
) -> Seq<CandidateResult> {
    let compacted = spec_compact(recs, bound);
    let live = spec_live_pairs(compacted);
    let tombs = spec_tombs(compacted);
    let log_full = spec_knn_plain(q, live, live.len() as int);
    spec_merge(spec_filter(log_full, allowed, tombs), spec_filter(index, allowed, tombs), k)
}

/// The embedding the plan attaches to a result id: the compacted log's,
/// else the record store's.
pub open spec fn spec_plan_embedding(
    recs: Seq<(u64, u64, Option<Seq<i32>>)>,
    bound: u64,
    store: Seq<(u64, Seq<i32>)>,
    id: u64,
) -> Option<Seq<i32>> {
    spec_embedding_plain(spec_live_pairs(spec_compact(recs, bound)), store, id)
}

/// One per-query output pinned to the plan: its ids and distances are
/// the merged top-k, and each embedding is the one the segment holds
/// for that id exactly when embeddings were requested.
pub open spec fn plan_output_matches(
    out: Seq<OutputResult>,
    q: Seq<i32>,
    k: int,
    with_embeddings: bool,
    allowed: Option<Seq<u64>>,
    recs: Seq<(u64, u64, Option<Seq<i32>>)>,
    bound: u64,
    index: Seq<CandidateResult>,
    store: Seq<(u64, Seq<i32>)>,
) -> bool {
    let m = spec_plan_merged(q, k, allowed, recs, bound, index);
    out.len() == m.len()
    && forall|i: int| 0 <= i < m.len()
        ==> (#[trigger] out[i]).id == m[i].id
            && out[i].distance == m[i].distance
            && emb_view(out[i].embedding) == (if with_embeddings {
                spec_plan_embedding(recs, bound, store, m[i].id)
            } else {
                None::<Seq<i32>>
            })
}

/// The plan's answer is deterministic: two outputs pinned to the plan
/// for the same inputs agree in every observable field — ids, distances
/// and embedding values — so the answer depends only on the recorded
/// branch pair, never on the order the branches completed in.
#[verifier::spinoff_prover]
pub proof fn lemma_plan_output_deterministic(
    out1: Seq<OutputResult>,
    out2: Seq<OutputResult>,
    q: Seq<i32>,
    k: int,
    with_embeddings: bool,
    allowed: Option<Seq<u64>>,
    recs: Seq<(u64, u64, Option<Seq<i32>>)>,
    bound: u64,
    index: Seq<CandidateResult>,
    store: Seq<(u64, Seq<i32>)>,
)
    requires
        plan_output_matches(out1, q, k, with_embeddings, allowed, recs, bound, index, store),
        plan_output_matches(out2, q, k, with_embeddings, allowed, recs, bound, index, store),
    ensures
        out1.len() == out2.len(),
        forall|i: int| 0 <= i < out1.len()
            ==> (#[trigger] out1[i]).id == out2[i].id
                && out1[i].distance == out2[i].distance
                && emb_view(out1[i].embedding) == emb_view(out2[i].embedding),
{
}

/// Runs the compute stages of the plan once both branches' raw inputs
/// are at hand: compact the log, search it exactly, reconcile with the
/// index-derived lists, filter, project, limit.
#[verifier::loop_isolation(false)]
#[verifier::rlimit(60)]
pub fn execute_plan(
    vectors: &Vec<Vec<i32>>,
    k: usize,
    include_embeddings: bool,
    allowed: &Option<Vec<u64>>,
    records: &Vec<LogRecord>,
    watermark: u64,
    index_results: &Vec<Vec<CandidateResult>>,
    store: &Vec<(u64, Vec<i32>)>,
) -> (r: Vec<Vec<OutputResult>>)
    requires
        seqs_increasing(records@),
        records_fit(vectors@, records@),
        index_results_wf(vectors@, index_results@),
    ensures
        r@.len() == vectors@.len(),
        forall|qi: int| 0 <= qi < r@.len()
            ==> result_wf((#[trigger] r@[qi])@, k as int, allowed_view(*allowed)),
        forall|qi: int, i: int|
            0 <= qi < r@.len() && 0 <= i < r@[qi]@.len()
            ==> !deleted_in_log(records@, watermark, (#[trigger] r@[qi]@[i]).id),
        forall|qi: int| 0 <= qi < r@.len()
            ==> plan_output_matches((#[trigger] r@[qi])@, vectors@[qi]@, k as int,
                include_embeddings, allowed_view(*allowed), records_view(records@),
                watermark, index_results@[qi]@, pairs_view(store@)),
{
    let compacted = compact_log(records, watermark);
    let live = live_candidates(&compacted);
    let tombs = tombstones(&compacted);
    proof {
        // Each live pair's embedding is some raw record's embedding, so
        // the fit of the raw records carries to the candidate set.
        assert forall|qi: int, pj: int|
            0 <= qi < vectors@.len() && 0 <= pj < live@.len() implies
            (#[trigger] live@[pj]).1@.len() == (#[trigger] vectors@[qi])@.len()
            && spec_sq_dist(vectors@[qi]@, live@[pj].1@) <= u64::MAX by {
            assert(derived_from(compacted@, live@[pj].0, live@[pj].1@));
            let cj = choose|cj: int| 0 <= cj < compacted@.len()
                && (#[trigger] compacted@[cj]).id == live@[pj].0
                && emb_view(compacted@[cj].embedding) == Some(live@[pj].1@);
            assert(matches_some(records@, compacted@[cj]));
            let rj = choose|rj: int| 0 <= rj < records@.len()
                && rec_matches(compacted@[cj], #[trigger] records@[rj]);
            assert(emb_view(records@[rj].embedding) == Some(live@[pj].1@));
        }
        assert(unique_rec_ids(compacted@));
        assert(unique_pair_ids(live@));
    }
    let mut r: Vec<Vec<OutputResult>> = Vec::new();
    let mut qi: usize = 0;
    while qi < vectors.len()
        invariant
            qi <= vectors@.len(),
            r@.len() == qi,
            forall|w: int| 0 <= w < qi
                ==> result_wf((#[trigger] r@[w])@, k as int, allowed_view(*allowed)),
            forall|w: int, i: int|
                0 <= w < qi && 0 <= i < r@[w]@.len()
                ==> !deleted_in_log(records@, watermark, (#[trigger] r@[w]@[i]).id),
            forall|w: int| 0 <= w < qi
                ==> plan_output_matches((#[trigger] r@[w])@, vectors@[w]@, k as int,
                    include_embeddings, allowed_view(*allowed), records_view(records@),
                    watermark, index_results@[w]@, pairs_view(store@)),
        decreases vectors@.len() - qi,
    {
        let q = &vectors[qi];
        proof {
            assert(dims_match(q@, live@));
            assert(dists_fit(q@, live@));
        }
        let full = knn_for_query(q, &live, live.len());
        proof {
            lemma_spec_knn_props(q@, live@, live@.len() as int);
            assert(ranked(full@));
            assert(unique_ids(full@));
        }
        let log_f = filter_candidates(&full, allowed, &tombs);
        let idx_f = filter_candidates(&index_results[qi], allowed, &tombs);
        proof {
            lemma_spec_filter_props(full@, allowed_view(*allowed), tombs@);
            lemma_spec_filter_props(index_results@[qi as int]@, allowed_view(*allowed), tombs@);
            assert(unique_ids(log_f@));
            assert(unique_ids(idx_f@));
        }
        let merged = merge_knn_results(&log_f, &idx_f, k);
        let projected = project_results(&merged, include_embeddings, &live, store);
        let limited = limit_results(projected, k);
        proof {
            assert(limited@ == projected@);
            assert forall|i: int, j: int| 0 <= i < j < limited@.len() implies
                (#[trigger] limited@[i]).id != (#[trigger] limited@[j]).id
                && limited@[i].distance <= limited@[j].distance by {
                assert(key_lt(merged@[i], merged@[j]));
                assert(merged@[i].id != merged@[j].id);
            }
            match allowed_view(*allowed) {
                Some(a) => {
                    assert forall|i: int| 0 <= i < limited@.len() implies
                        a.contains((#[trigger] limited@[i]).id) by {
                        assert(log_f@.contains(merged@[i]) || idx_f@.contains(merged@[i]));
                        if log_f@.contains(merged@[i]) {
                            let w = choose|w: int| 0 <= w < log_f@.len() && log_f@[w] == merged@[i];
                            assert(passes(log_f@[w], allowed_view(*allowed), tombs@));
                        } else {
                            let w = choose|w: int| 0 <= w < idx_f@.len() && idx_f@[w] == merged@[i];
                            assert(passes(idx_f@[w], allowed_view(*allowed), tombs@));
                        }
                    }
                },
                None => {},
            }
            assert(result_wf(limited@, k as int, allowed_view(*allowed)));
            // The output is the plan's merged top-k of the raw inputs:
            // every stage's contract is equational, so the chain closes.
            let compacted_s = spec_compact(records_view(records@), watermark);
            let live_s = spec_live_pairs(compacted_s);
            let tombs_s = spec_tombs(compacted_s);
            let m = spec_plan_merged(q@, k as int, allowed_view(*allowed),
                records_view(records@), watermark, index_results@[qi as int]@);
            assert(records_view(compacted@) == compacted_s);
            assert(pairs_view(live@) == live_s);
            assert(tombs@ == tombs_s);
            lemma_spec_knn_plain(q@, live@, live@.len() as int);
            assert(live_s.len() == live@.len());
            assert(full@ == spec_knn_plain(q@, live_s, live_s.len() as int));
            assert(merged@ == m);
            assert forall|i: int| 0 <= i < m.len() implies
                (#[trigger] limited@[i]).id == m[i].id
                && limited@[i].distance == m[i].distance
                && emb_view(limited@[i].embedding) == (if include_embeddings {
                    spec_plan_embedding(records_view(records@), watermark,
                        pairs_view(store@), m[i].id)
                } else {
                    None::<Seq<i32>>
                }) by {
                assert(limited@[i].id == merged@[i].id);
                if include_embeddings {
                    lemma_spec_lookup_plain(live@, m[i].id);
                    lemma_spec_lookup_plain(store@, m[i].id);
                    assert(emb_view(limited@[i].embedding)
                        == spec_embedding_of(live@, store@, merged@[i].id));
                }
            }
            assert(plan_output_matches(limited@, q@, k as int, include_embeddings,
                allowed_view(*allowed), records_view(records@), watermark,
                index_results@[qi as int]@, pairs_view(store@)));
            // An id whose newest mutation is a delete is a tombstone of
            // the compacted log, and both merge sources were filtered
            // against the tombstones.
            assert forall|i: int| 0 <= i < limited@.len() implies
                !deleted_in_log(records@, watermark, (#[trigger] limited@[i]).id) by {
                let id = limited@[i].id;
                if deleted_in_log(records@, watermark, id) {
                    let j = choose|j: int| 0 <= j < records@.len()
                        && (#[trigger] records@[j]).id == id
                        && records@[j].seq >= watermark
                        && records@[j].embedding is None
                        && (forall|w: int| 0 <= w < records@.len()
                            && (#[trigger] records@[w]).id == id
                            ==> records@[w].seq <= records@[j].seq);
                    let ci = choose|ci: int| 0 <= ci < compacted@.len()
                        && compacted@[ci].id == id;
                    assert(matches_some(records@, compacted@[ci]));
                    let rj = choose|rj: int| 0 <= rj < records@.len()
                        && rec_matches(compacted@[ci], #[trigger] records@[rj]);
                    // The compacted entry is the newest record for the id,
                    // and the delete is the newest record, so they are one
                    // and the same position.
                    assert(records@[j].seq <= compacted@[ci].seq);
                    assert(records@[rj].seq == compacted@[ci].seq);
                    assert(records@[rj].id == id);
                    assert(records@[rj].seq <= records@[j].seq);
                    if rj < j {
                        assert(records@[rj].seq < records@[j].seq);
                    } else if j < rj {
                        assert(records@[j].seq < records@[rj].seq);
                    }
                    assert(rj == j);
                    assert(emb_view(compacted@[ci].embedding) == emb_view(records@[j].embedding));
                    assert(compacted@[ci].embedding is None);
                    assert(tombs@.contains(id));
                    assert(merged@[i].id == id);
                    assert(log_f@.contains(merged@[i]) || idx_f@.contains(merged@[i]));
                    if log_f@.contains(merged@[i]) {
                        let w = choose|w: int| 0 <= w < log_f@.len() && log_f@[w] == merged@[i];
                        assert(passes(log_f@[w], allowed_view(*allowed), tombs@));
                    } else {
                        let w = choose|w: int| 0 <= w < idx_f@.len() && idx_f@[w] == merged@[i];
                        assert(passes(idx_f@[w], allowed_view(*allowed), tombs@));
                    }
                    assert(false);
                }
            }
        }
        r.push(limited);
        qi = qi + 1;
    }
    r
}

/// The phase of one query's life.
#[derive(Clone, Copy, Debug, PartialEq, Eq, Structural)]
pub enum Phase {
    Init,
    Resolving,
    FanOut,
    Done,
    Failed,
}

/// One query's orchestrator. Branch outputs are recorded as they
/// arrive; the merge runs once, over the recorded pair.
pub struct Orchestrator {
    pub params: QueryParams,
    pub phase: Phase,
    pub info: Option<SegmentInfo>,
    pub log_out: Option<Vec<LogRecord>>,
    pub index_out: Option<Vec<Vec<CandidateResult>>>,
    pub result: Option<Vec<Vec<OutputResult>>>,
    pub error: Option<QueryError>,
}

/// The orchestrator with the log branch's output recorded.
pub open spec fn with_log(o: Orchestrator, l: Vec<LogRecord>) -> Orchestrator {
    Orchestrator { log_out: Some(l), ..o }
}

/// The orchestrator with the index branch's output recorded.
pub open spec fn with_index(o: Orchestrator, x: Vec<Vec<CandidateResult>>) -> Orchestrator {
    Orchestrator { index_out: Some(x), ..o }
}

/// Branch completions commute: recording the log output and then the
/// index output reaches exactly the state reached in the opposite
/// order. The merge consumes the recorded pair alone, so the final
/// answer does not depend on which branch completed first.
pub proof fn lemma_fanout_order_commutative(o: Orchestrator, l: Vec<LogRecord>, x: Vec<Vec<CandidateResult>>)
    ensures
        with_index(with_log(o, l), x) == with_log(with_index(o, x), l),
{
}

impl Orchestrator {
    /// Builds the machine in its initial state.
    pub fn new(params: QueryParams) -> (r: Orchestrator)
        ensures
            r.params == params,
            r.phase == Phase::Init,
            r.info is None,
            r.log_out is None,
            r.index_out is None,
            r.result is None,
            r.error is None,
    {
        Orchestrator {
            params,
            phase: Phase::Init,
            info: None,
            log_out: None,
            index_out: None,
            result: None,
            error: None,
        }
    }

    /// Validates the request. A malformed segment identifier fails the
    /// query synchronously: no action is returned and nothing is ever
    /// dispatched. A well-formed one moves to resolution.
    pub fn start(&mut self) -> (a: Option<OrchAction>)
        requires
            old(self).phase == Phase::Init,
        ensures
            uuid_ok(old(self).params.segment_id@)
                ==> *final(self) == (Orchestrator { phase: Phase::Resolving, ..*old(self) })
                    && a == Some(OrchAction::DispatchResolve),
            !uuid_ok(old(self).params.segment_id@)
                ==> *final(self) == (Orchestrator {
                        phase: Phase::Failed,
                        error: Some(QueryError::ValidationError),
                        ..*old(self)
                    }) && a is None,
    {
        if segment_id_is_valid(self.params.segment_id.as_str()) {
            self.phase = Phase::Resolving;
            Some(OrchAction::DispatchResolve)
        } else {
            self.phase = Phase::Failed;
            self.error = Some(QueryError::ValidationError);
            None
        }
    }

    /// Records the resolution outcome: on success both search branches
    /// are fanned out in parallel; on failure the query fails with the
    /// resolution error.
    pub fn on_resolved(&mut self, res: Result<SegmentInfo, QueryError>) -> (a: Vec<OrchAction>)
        requires
            old(self).phase == Phase::Resolving,
        ensures
            match res {
                Ok(info) => *final(self) == (Orchestrator {
                        phase: Phase::FanOut,
                        info: Some(info),
                        ..*old(self)
                    }) && a@ == seq![OrchAction::DispatchLogPull, OrchAction::DispatchIndexSearch],
                Err(e) => *final(self) == (Orchestrator {
                        phase: Phase::Failed,
                        error: Some(e),
                        ..*old(self)
                    }) && a@.len() == 0,
            },
    {
        match res {
            Ok(info) => {
                self.info = Some(info);
                self.phase = Phase::FanOut;
                let mut a: Vec<OrchAction> = Vec::new();
                a.push(OrchAction::DispatchLogPull);
                a.push(OrchAction::DispatchIndexSearch);
                proof {
                    assert(a@ =~= seq![OrchAction::DispatchLogPull, OrchAction::DispatchIndexSearch]);
                }
                a
            },
            Err(e) => {
                self.phase = Phase::Failed;
                self.error = Some(e);
                Vec::new()
            },
        }
    }

    /// Records the log branch's outcome. A failure is fatal to the
    /// whole query at once; no partial, index-only answer is kept.
    pub fn on_log_done(&mut self, res: Result<Vec<LogRecord>, QueryError>) -> (failed: bool)
        requires
            old(self).phase == Phase::FanOut,
            old(self).log_out is None,
        ensures
            match res {
                Ok(l) => *final(self) == with_log(*old(self), l) && !failed,
                Err(e) => *final(self) == (Orchestrator {
                        phase: Phase::Failed,
                        error: Some(e),
                        ..*old(self)
                    }) && failed,
            },
    {
        match res {
            Ok(l) => {
                self.log_out = Some(l);
                false
            },
            Err(e) => {
                self.phase = Phase::Failed;
                self.error = Some(e);
                true
            },
        }
    }

    /// Records the index branch's outcome; a failure fails the query,
    /// even when the log branch has already succeeded.
    pub fn on_index_done(&mut self, res: Result<Vec<Vec<CandidateResult>>, QueryError>) -> (failed: bool)
        requires
            old(self).phase == Phase::FanOut,
            old(self).index_out is None,
        ensures
            match res {
                Ok(x) => *final(self) == with_index(*old(self), x) && !failed,
                Err(e) => *final(self) == (Orchestrator {
                        phase: Phase::Failed,
                        error: Some(e),
                        ..*old(self)
                    }) && failed,
            },
    {
        match res {
            Ok(x) => {
                self.index_out = Some(x);
                false
            },
            Err(e) => {
                self.phase = Phase::Failed;
                self.error = Some(e);
                true
            },
        }
    }

    /// Whether both branches have completed, so the merge can run.
    pub fn ready_to_merge(&self) -> (r: bool)
        ensures
            r == (self.phase == Phase::FanOut && self.info is Some
                && self.log_out is Some && self.index_out is Some),
    {
        match (&self.info, &self.log_out, &self.index_out) {
            (Some(_), Some(_), Some(_)) => self.phase == Phase::FanOut,
            _ => false,
        }
    }

    /// Runs merge, filter, projection and limit over the two recorded
    /// branch outputs and finishes the query. The outcome is a function
    /// of the recorded pair alone, not of the order it arrived in.
    pub fn finish(&mut self)
        requires
            old(self).phase == Phase::FanOut,
            old(self).info is Some,
            old(self).log_out matches Some(l)
                && seqs_increasing(l@)
                && records_fit(old(self).params.vectors@, l@),
            old(self).index_out matches Some(x)
                && index_results_wf(old(self).params.vectors@, x@),
        ensures
            final(self).params == old(self).params,
            final(self).info == old(self).info,
            final(self).log_out == old(self).log_out,
            final(self).index_out == old(self).index_out,
            final(self).error == old(self).error,
            final(self).phase == Phase::Done,
            final(self).result matches Some(out)
                && out@.len() == old(self).params.vectors@.len()
                && (forall|qi: int| 0 <= qi < out@.len()
                    ==> result_wf((#[trigger] out@[qi])@, old(self).params.k as int,
                        allowed_view(old(self).params.allowed_ids)))
                && (forall|qi: int, i: int|
                    0 <= qi < out@.len() && 0 <= i < out@[qi]@.len()
                    ==> !deleted_in_log(old(self).log_out->Some_0@,
                        old(self).info->Some_0.watermark, (#[trigger] out@[qi]@[i]).id))
                && (forall|qi: int| 0 <= qi < out@.len()
                    ==> plan_output_matches((#[trigger] out@[qi])@,
                        old(self).params.vectors@[qi]@,
                        old(self).params.k as int,
                        old(self).params.include_embeddings,
                        allowed_view(old(self).params.allowed_ids),
                        records_view(old(self).log_out->Some_0@),
                        old(self).info->Some_0.watermark,
                        old(self).index_out->Some_0@[qi]@,
                        pairs_view(old(self).info->Some_0.store@))),
    {
        let out = match (&self.info, &self.log_out, &self.index_out) {
            (Some(info), Some(l), Some(x)) => execute_plan(
                &self.params.vectors,
                self.params.k,
                self.params.include_embeddings,
                &self.params.allowed_ids,
                l,
                info.watermark,
                x,
                &info.store,
            ),
            _ => {
                proof {
                    assert(false);
                }
                Vec::new()
            },
        };
        self.result = Some(out);
        self.phase = Phase::Done;
    }

    /// The deadline fired or the caller cancelled: stop waiting.
    /// Results that still arrive are discarded by the runtime.
    pub fn on_deadline(&mut self)
        requires
            old(self).phase != Phase::Done,
            old(self).phase != Phase::Failed,
        ensures
            *final(self) == (Orchestrator {
                phase: Phase::Failed,
                error: Some(QueryError::DeadlineExceeded),
                ..*old(self)
            }),
    {
        self.phase = Phase::Failed;
        self.error = Some(QueryError::DeadlineExceeded);
    }
}

} // verus!
