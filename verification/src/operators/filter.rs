//! Candidate filtering: the allow-list restriction and the exclusion of
//! ids deleted in the log (tombstones), applied before the ranked union
//! is cut to k.

use vstd::prelude::*;
use crate::types::CandidateResult;
use crate::ranking::{key_lt, ranked, unique_ids};

verus! {

/// The view of an optional allow-list.
pub open spec fn allowed_view(a: Option<Vec<u64>>) -> Option<Seq<u64>> {
    match a {
        Some(v) => Some(v@),
        None => None,
    }
}

/// Whether a candidate passes the allow-list and tombstone exclusion.
pub open spec fn passes(c: CandidateResult, allowed: Option<Seq<u64>>, tombs: Seq<u64>) -> bool {
    (match allowed {
        Some(a) => a.contains(c.id),
        None => true,
    }) && !tombs.contains(c.id)
}

/// The candidates that pass, in their original order.
pub open spec fn spec_filter(s: Seq<CandidateResult>, allowed: Option<Seq<u64>>, tombs: Seq<u64>) -> Seq<CandidateResult>
    decreases s.len(),
{
    if s.len() == 0 {
        Seq::empty()
    } else {
        let rest = spec_filter(s.drop_last(), allowed, tombs);
        if passes(s.last(), allowed, tombs) {
            rest.push(s.last())
        } else {
            rest
        }
    }
}

/// Filtering keeps a subsequence: every kept entry passes and comes from
/// the input, everything that passes is kept, and rank order and id
/// uniqueness survive.
pub proof fn lemma_spec_filter_props(s: Seq<CandidateResult>, allowed: Option<Seq<u64>>, tombs: Seq<u64>)
    ensures
        spec_filter(s, allowed, tombs).len() <= s.len(),
        forall|i: int| 0 <= i < spec_filter(s, allowed, tombs).len()
            ==> s.contains(#[trigger] spec_filter(s, allowed, tombs)[i])
                && passes(spec_filter(s, allowed, tombs)[i], allowed, tombs),
        forall|j: int| 0 <= j < s.len() && passes(#[trigger] s[j], allowed, tombs)
            ==> spec_filter(s, allowed, tombs).contains(s[j]),
        ranked(s) ==> ranked(spec_filter(s, allowed, tombs)),
        unique_ids(s) ==> unique_ids(spec_filter(s, allowed, tombs)),
    decreases s.len(),
{
    let r = spec_filter(s, allowed, tombs);
    if s.len() > 0 {
        let t = s.drop_last();
        let rt = spec_filter(t, allowed, tombs);
        lemma_spec_filter_props(t, allowed, tombs);
        if ranked(s) {
            assert(ranked(t));
        }
        if unique_ids(s) {
            assert(unique_ids(t));
        }
        assert forall|i: int| 0 <= i < r.len() implies
            s.contains(#[trigger] r[i]) && passes(r[i], allowed, tombs) by {
            if i < rt.len() {
                assert(r[i] == rt[i]);
                let w = choose|w: int| 0 <= w < t.len() && t[w] == rt[i];
                assert(s[w] == t[w]);
            } else {
                assert(r[i] == s.last());
                assert(s[s.len() - 1] == s.last());
            }
        }
        assert forall|j: int| 0 <= j < s.len() && passes(#[trigger] s[j], allowed, tombs) implies
            r.contains(s[j]) by {
            if j == s.len() - 1 {
                assert(r[r.len() - 1] == s.last());
            } else {
                assert(t[j] == s[j]);
                assert(rt.contains(t[j]));
                let w = choose|w: int| 0 <= w < rt.len() && rt[w] == t[j];
                assert(r[w] == s[j]);
            }
        }
        if ranked(s) {
            assert forall|i: int, j: int| 0 <= i < j < r.len() implies key_lt(r[i], r[j]) by {
                if j == r.len() - 1 && passes(s.last(), allowed, tombs) && r[j] == s.last() {
                    assert(r[i] == rt[i]);
                    assert(t.contains(rt[i]));
                    let w = choose|w: int| 0 <= w < t.len() && t[w] == rt[i];
                    assert(s[w] == t[w]);
                    assert(key_lt(s[w], s[s.len() - 1]));
                } else {
                    assert(r[i] == rt[i] && r[j] == rt[j]);
                }
            }
        }
        if unique_ids(s) {
            assert forall|i: int, j: int| 0 <= i < j < r.len() implies r[i].id != r[j].id by {
                let wi = choose|w: int| 0 <= w < s.len() && s[w] == r[i];
                let wj = choose|w: int| 0 <= w < s.len() && s[w] == r[j];
                if r[i].id == r[j].id {
                    assert(wi == wj);
                    if j == r.len() - 1 && passes(s.last(), allowed, tombs) && r[j] == s.last() {
                        assert(rt.contains(r[i]));
                        let v = choose|v: int| 0 <= v < t.len() && t[v] == r[i];
                        assert(s[v] == r[i]);
                        assert(s[v].id != s[s.len() - 1].id || v == s.len() - 1);
                    } else {
                        assert(rt.contains(r[i]) && rt.contains(r[j]));
                    }
                }
            }
        }
    }
}

fn contains_u64(v: &Vec<u64>, id: u64) -> (r: bool)
    ensures
        r == v@.contains(id),
{
    let mut i: usize = 0;
    while i < v.len()
        invariant
            i <= v@.len(),
            forall|j: int| 0 <= j < i ==> v@[j] != id,
        decreases v@.len() - i,
    {
        if v[i] == id {
            assert(v@[i as int] == id);
            return true;
        }
        i = i + 1;
    }
    false
}

fn passes_exec(c: &CandidateResult, allowed: &Option<Vec<u64>>, tombs: &Vec<u64>) -> (r: bool)
    ensures
        r == passes(*c, allowed_view(*allowed), tombs@),
{
    let allow_ok = match allowed {
        Some(a) => contains_u64(a, c.id),
        None => true,
    };
    allow_ok && !contains_u64(tombs, c.id)
}

/// Keeps the candidates that lie in the allow-list (when one is supplied)
/// and are not deleted, in their original order.
pub fn filter_candidates(cands: &Vec<CandidateResult>, allowed: &Option<Vec<u64>>, tombs: &Vec<u64>) -> (r: Vec<CandidateResult>)
    ensures
        r@ == spec_filter(cands@, allowed_view(*allowed), tombs@),
{
    let mut r: Vec<CandidateResult> = Vec::new();
    let mut t: usize = 0;
    proof {
        assert(cands@.take(0) =~= Seq::<CandidateResult>::empty());
    }
    while t < cands.len()
        invariant
            t <= cands@.len(),
            r@ == spec_filter(cands@.take(t as int), allowed_view(*allowed), tombs@),
        decreases cands@.len() - t,
    {
        proof {
            assert(cands@.take(t + 1 as int).drop_last() =~= cands@.take(t as int));
            assert(cands@.take(t + 1 as int).last() == cands@[t as int]);
        }
        if passes_exec(&cands[t], allowed, tombs) {
            r.push(cands[t]);
        }
        t = t + 1;
    }
    proof {
        assert(cands@.take(cands@.len() as int) =~= cands@);
    }
    r
}

} // verus!
