//! Merge of ranked candidate lists from competing sources.
//!
//! The union is taken by id with the precedence rule: a log-sourced entry
//! always supersedes an index-sourced entry for the same id, because the
//! log reflects the most recent mutation. The union is then ranked
//! (ascending distance, ties by ascending id) and cut to `k`.

use vstd::prelude::*;
use crate::types::CandidateResult;
use crate::ranking::{
    key_lt, ranked, unique_ids, has_id, spec_sorted, rank_candidates,
    lemma_spec_sorted_props,
};

verus! {

/// The index-sourced entries that survive precedence: those whose id has
/// no log-sourced entry, in index order.
pub open spec fn keep_not_in(log: Seq<CandidateResult>, index: Seq<CandidateResult>) -> Seq<CandidateResult>
    decreases index.len(),
{
    if index.len() == 0 {
        Seq::empty()
    } else {
        let rest = keep_not_in(log, index.drop_last());
        if has_id(log, index.last().id) {
            rest
        } else {
            rest.push(index.last())
        }
    }
}

/// A ranked sequence cut to its first `k` entries.
pub open spec fn cut(s: Seq<CandidateResult>, k: int) -> Seq<CandidateResult> {
    if k <= s.len() {
        s.subrange(0, k)
    } else {
        s
    }
}

/// The merged top-k: the log entries, the index entries not superseded by
/// a log entry of the same id, ranked together and cut to `k`.
pub open spec fn spec_merge(log: Seq<CandidateResult>, index: Seq<CandidateResult>, k: int) -> Seq<CandidateResult> {
    cut(spec_sorted(log + keep_not_in(log, index)), k)
}

pub proof fn lemma_keep_not_in_props(log: Seq<CandidateResult>, index: Seq<CandidateResult>)
    ensures
        keep_not_in(log, index).len() <= index.len(),
        forall|i: int| 0 <= i < keep_not_in(log, index).len()
            ==> index.contains(#[trigger] keep_not_in(log, index)[i])
                && !has_id(log, keep_not_in(log, index)[i].id),
        forall|j: int| 0 <= j < index.len() && !has_id(log, (#[trigger] index[j]).id)
            ==> keep_not_in(log, index).contains(index[j]),
        unique_ids(index) ==> unique_ids(keep_not_in(log, index)),
    decreases index.len(),
{
    let r = keep_not_in(log, index);
    if index.len() > 0 {
        let t = index.drop_last();
        let rt = keep_not_in(log, t);
        lemma_keep_not_in_props(log, t);
        assert(forall|i: int| 0 <= i < t.len() ==> #[trigger] t[i] == index[i]);
        assert forall|i: int| 0 <= i < r.len() implies
            index.contains(#[trigger] r[i]) && !has_id(log, r[i].id) by {
            if i < rt.len() {
                assert(r[i] == rt[i]);
                let j = choose|j: int| 0 <= j < t.len() && t[j] == rt[i];
                assert(index[j] == rt[i]);
            } else {
                assert(r[i] == index.last());
                assert(index[index.len() - 1] == index.last());
            }
        }
        assert forall|j: int| 0 <= j < index.len() && !has_id(log, (#[trigger] index[j]).id) implies
            r.contains(index[j]) by {
            if j == index.len() - 1 {
                assert(r[r.len() - 1] == index.last());
            } else {
                assert(rt.contains(t[j]));
                let w = choose|w: int| 0 <= w < rt.len() && rt[w] == t[j];
                assert(r[w] == index[j]);
            }
        }
        if unique_ids(index) {
            assert(unique_ids(t));
            assert forall|i: int, j: int| 0 <= i < j < r.len() implies r[i].id != r[j].id by {
                let wi = choose|w: int| 0 <= w < index.len() && index[w] == r[i];
                let wj = choose|w: int| 0 <= w < index.len() && index[w] == r[j];
                if r[i].id == r[j].id {
                    assert(wi == wj);
                    if j == r.len() - 1 && !has_id(log, index.last().id) {
                        // r[j] is the last index entry; r[i] lies in rt whose
                        // elements come from t, so wi < index.len() - 1 while
                        // wj could only be the last position.
                        assert(rt.contains(r[i]));
                        let v = choose|v: int| 0 <= v < t.len() && t[v] == r[i];
                        assert(index[v] == r[i]);
                        assert(index[v].id != index[index.len() - 1].id || v == index.len() - 1);
                    }
                }
            }
        }
    }
}

fn contains_id(v: &Vec<CandidateResult>, id: u64) -> (r: bool)
    ensures
        r == has_id(v@, id),
{
    let mut i: usize = 0;
    while i < v.len()
        invariant
            i <= v@.len(),
            forall|j: int| 0 <= j < i ==> (#[trigger] v@[j]).id != id,
        decreases v@.len() - i,
    {
        if v[i].id == id {
            return true;
        }
        i = i + 1;
    }
    false
}

/// Merges the log-derived and index-derived ranked lists for one query.
///
/// The result satisfies the ranked-result invariants (unique ids, length
/// at most `k`, distances non-decreasing), every entry comes from one of
/// the sources, and for an id present in both sources the log-derived
/// entry is the one kept.
pub fn merge_knn_results(log: &Vec<CandidateResult>, index: &Vec<CandidateResult>, k: usize) -> (r: Vec<CandidateResult>)
    requires
        unique_ids(log@),
        unique_ids(index@),
    ensures
        r@ == spec_merge(log@, index@, k as int),
        ranked(r@),
        unique_ids(r@),
        r@.len() <= k,
        forall|i: int| 0 <= i < r@.len()
            ==> log@.contains(#[trigger] r@[i]) || index@.contains(r@[i]),
        forall|i: int| 0 <= i < r@.len() && has_id(log@, (#[trigger] r@[i]).id)
            ==> log@.contains(r@[i]),
{
    let mut combined: Vec<CandidateResult> = Vec::new();
    let mut j: usize = 0;
    while j < log.len()
        invariant
            j <= log@.len(),
            combined@ == log@.take(j as int),
        decreases log@.len() - j,
    {
        combined.push(log[j]);
        proof {
            assert(combined@ =~= log@.take(j + 1 as int));
        }
        j = j + 1;
    }
    proof {
        assert(log@.take(log@.len() as int) =~= log@);
        assert(combined@ =~= log@ + keep_not_in(log@, index@.take(0)));
    }
    let mut t: usize = 0;
    while t < index.len()
        invariant
            t <= index@.len(),
            combined@ == log@ + keep_not_in(log@, index@.take(t as int)),
        decreases index@.len() - t,
    {
        proof {
            assert(index@.take(t + 1 as int).drop_last() =~= index@.take(t as int));
            assert(index@.take(t + 1 as int).last() == index@[t as int]);
        }
        if !contains_id(log, index[t].id) {
            combined.push(index[t]);
        }
        t = t + 1;
    }
    proof {
        assert(index@.take(index@.len() as int) =~= index@);
    }
    let kept = Ghost(keep_not_in(log@, index@));
    proof {
        lemma_keep_not_in_props(log@, index@);
        // The combined list has unique ids: the log part is unique, the
        // kept part is unique, and kept ids avoid every log id.
        assert forall|a: int, b: int| 0 <= a < b < combined@.len() implies
            combined@[a].id != combined@[b].id by {
            if a < log@.len() && b >= log@.len() {
                assert(combined@[a] == log@[a]);
                assert(combined@[b] == kept@[b - log@.len()]);
                assert(has_id(log@, log@[a].id));
            } else if a >= log@.len() {
                assert(combined@[a] == kept@[a - log@.len()]);
                assert(combined@[b] == kept@[b - log@.len()]);
            }
        }
        lemma_spec_sorted_props(combined@);
    }
    let mut sorted = rank_candidates(&combined);
    if k < sorted.len() {
        sorted.truncate(k);
    }
    proof {
        let full = spec_sorted(combined@);
        assert forall|i: int| 0 <= i < sorted@.len() implies
            (log@.contains(#[trigger] sorted@[i]) || index@.contains(sorted@[i]))
            && (has_id(log@, sorted@[i].id) ==> log@.contains(sorted@[i])) by {
            assert(sorted@[i] == full[i]);
            assert(combined@.contains(full[i]));
            let w = choose|w: int| 0 <= w < combined@.len() && combined@[w] == full[i];
            if w < log@.len() {
                assert(combined@[w] == log@[w]);
            } else {
                assert(combined@[w] == kept@[w - log@.len()]);
                assert(index@.contains(kept@[w - log@.len()]));
                assert(!has_id(log@, sorted@[i].id));
            }
        }
    }
    sorted
}

/// The precedence law: for an id that appears both as a log-derived and
/// an index-derived candidate, the merged result carries the log-derived
/// entry — its distance, not the index-derived one.
pub proof fn lemma_merge_precedence(log: Seq<CandidateResult>, index: Seq<CandidateResult>, k: int, i: int)
    requires
        unique_ids(log),
        unique_ids(index),
        0 <= k,
        0 <= i < spec_merge(log, index, k).len(),
        has_id(log, spec_merge(log, index, k)[i].id),
    ensures
        log.contains(spec_merge(log, index, k)[i]),
{
    let combined = log + keep_not_in(log, index);
    lemma_keep_not_in_props(log, index);
    assert forall|a: int, b: int| 0 <= a < b < combined.len() implies
        combined[a].id != combined[b].id by {
        if a < log.len() && b >= log.len() {
            assert(combined[a] == log[a]);
            assert(combined[b] == keep_not_in(log, index)[b - log.len()]);
            assert(has_id(log, log[a].id));
        } else if a >= log.len() {
            assert(combined[a] == keep_not_in(log, index)[a - log.len()]);
            assert(combined[b] == keep_not_in(log, index)[b - log.len()]);
        }
    }
    lemma_spec_sorted_props(combined);
    let full = spec_sorted(combined);
    let e = spec_merge(log, index, k)[i];
    if k <= full.len() {
        assert(spec_merge(log, index, k) == full.subrange(0, k));
        assert(spec_merge(log, index, k).len() == k);
        assert(0 <= i < k);
        assert(full.subrange(0, k)[i] == full[i]);
        assert(e == full.subrange(0, k)[i]);
    } else {
        assert(spec_merge(log, index, k) == full);
    }
    assert(e == full[i]);
    assert(combined.contains(full[i]));
    let w = choose|w: int| 0 <= w < combined.len() && combined[w] == e;
    if w >= log.len() {
        assert(combined[w] == keep_not_in(log, index)[w - log.len()]);
        assert(!has_id(log, e.id));
    } else {
        assert(combined[w] == log[w]);
    }
}

} // verus!
