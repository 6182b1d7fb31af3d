//! The ranking order on candidates and a verified sort into that order.
//!
//! Every search-capable operator emits its results ranked: ascending by
//! distance, exact-distance ties broken by ascending id so that the order
//! is deterministic.

use vstd::prelude::*;
use crate::types::CandidateResult;

verus! {

/// The strict ranking order: closer first; exact-distance ties broken by
/// ascending id for determinism.
pub open spec fn key_lt(a: CandidateResult, b: CandidateResult) -> bool {
    a.distance < b.distance || (a.distance == b.distance && a.id < b.id)
}

/// A ranked sequence: strictly increasing in the ranking order, hence
/// distances non-decreasing by position and no entry repeated.
pub open spec fn ranked(s: Seq<CandidateResult>) -> bool {
    forall|i: int, j: int| 0 <= i < j < s.len() ==> key_lt(s[i], s[j])
}

/// No id occurs twice.
pub open spec fn unique_ids(s: Seq<CandidateResult>) -> bool {
    forall|i: int, j: int| 0 <= i < j < s.len() ==> s[i].id != s[j].id
}

/// Whether some entry of `s` carries `id`.
pub open spec fn has_id(s: Seq<CandidateResult>, id: u64) -> bool {
    exists|i: int| 0 <= i < s.len() && s[i].id == id
}

/// Insertion of `x` into `s` in front of the first entry that `x` ranks
/// before.
pub open spec fn sorted_insert(s: Seq<CandidateResult>, x: CandidateResult) -> Seq<CandidateResult>
    decreases s.len(),
{
    if s.len() == 0 {
        seq![x]
    } else if key_lt(x, s[0]) {
        seq![x] + s
    } else {
        seq![s[0]] + sorted_insert(s.drop_first(), x)
    }
}

/// Insertion sort of a candidate sequence into the ranking order.
pub open spec fn spec_sorted(s: Seq<CandidateResult>) -> Seq<CandidateResult>
    decreases s.len(),
{
    if s.len() == 0 {
        Seq::empty()
    } else {
        sorted_insert(spec_sorted(s.drop_last()), s.last())
    }
}

pub proof fn lemma_sorted_insert_elems(s: Seq<CandidateResult>, x: CandidateResult)
    ensures
        sorted_insert(s, x).len() == s.len() + 1,
        forall|i: int| 0 <= i < sorted_insert(s, x).len()
            ==> #[trigger] sorted_insert(s, x)[i] == x || s.contains(sorted_insert(s, x)[i]),
        sorted_insert(s, x).contains(x),
        forall|i: int| 0 <= i < s.len() ==> sorted_insert(s, x).contains(#[trigger] s[i]),
    decreases s.len(),
{
    let r = sorted_insert(s, x);
    if s.len() == 0 {
        assert(r[0] == x);
    } else if key_lt(x, s[0]) {
        assert(r[0] == x);
        assert forall|i: int| 0 <= i < r.len() implies #[trigger] r[i] == x || s.contains(r[i]) by {
            if i > 0 {
                assert(r[i] == s[i - 1]);
            }
        }
        assert forall|i: int| 0 <= i < s.len() implies r.contains(#[trigger] s[i]) by {
            assert(r[i + 1] == s[i]);
        }
    } else {
        let t = s.drop_first();
        let rt = sorted_insert(t, x);
        lemma_sorted_insert_elems(t, x);
        assert(r[0] == s[0]);
        assert forall|i: int| 0 <= i < r.len() implies #[trigger] r[i] == x || s.contains(r[i]) by {
            if i == 0 {
                assert(s.contains(s[0]));
            } else {
                assert(r[i] == rt[i - 1]);
                if rt[i - 1] != x {
                    let j = choose|j: int| 0 <= j < t.len() && t[j] == rt[i - 1];
                    assert(s[j + 1] == t[j]);
                    assert(s.contains(s[j + 1]));
                }
            }
        }
        let w = choose|w: int| 0 <= w < rt.len() && rt[w] == x;
        assert(r[w + 1] == x);
        assert(r.contains(x));
        assert forall|i: int| 0 <= i < s.len() implies r.contains(#[trigger] s[i]) by {
            if i == 0 {
                assert(r[0] == s[0]);
            } else {
                assert(t[i - 1] == s[i]);
                assert(rt.contains(t[i - 1]));
                let j = choose|j: int| 0 <= j < rt.len() && rt[j] == t[i - 1];
                assert(r[j + 1] == s[i]);
            }
        }
    }
}

pub proof fn lemma_sorted_insert_ranked(s: Seq<CandidateResult>, x: CandidateResult)
    requires
        ranked(s),
        forall|i: int| 0 <= i < s.len() ==> (#[trigger] s[i]).id != x.id || s[i].distance != x.distance,
    ensures
        ranked(sorted_insert(s, x)),
    decreases s.len(),
{
    let r = sorted_insert(s, x);
    if s.len() == 0 {
    } else if key_lt(x, s[0]) {
        assert forall|i: int, j: int| 0 <= i < j < r.len() implies key_lt(r[i], r[j]) by {
            if i == 0 {
                assert(r[j] == s[j - 1]);
                if j - 1 > 0 {
                    assert(key_lt(s[0], s[j - 1]));
                }
            } else {
                assert(r[i] == s[i - 1] && r[j] == s[j - 1]);
            }
        }
    } else {
        let t = s.drop_first();
        let rt = sorted_insert(t, x);
        assert forall|i: int| 0 <= i < t.len() implies
            (#[trigger] t[i]).id != x.id || t[i].distance != x.distance by {
            assert(t[i] == s[i + 1]);
        }
        lemma_sorted_insert_ranked(t, x);
        lemma_sorted_insert_elems(t, x);
        // s[0] ranks before x: not key_lt(x, s[0]) and the keys differ.
        assert(key_lt(s[0], x));
        assert forall|i: int, j: int| 0 <= i < j < r.len() implies key_lt(r[i], r[j]) by {
            if i == 0 {
                assert(r[j] == rt[j - 1]);
                if rt[j - 1] == x {
                    assert(key_lt(s[0], x));
                } else {
                    let w = choose|w: int| 0 <= w < t.len() && t[w] == rt[j - 1];
                    assert(t[w] == s[w + 1]);
                    assert(key_lt(s[0], s[w + 1]));
                }
            } else {
                assert(r[i] == rt[i - 1] && r[j] == rt[j - 1]);
            }
        }
    }
}

/// The properties of the sort that every caller leans on: it keeps the
/// length and the elements, emits them ranked, and keeps ids unique.
pub proof fn lemma_spec_sorted_props(s: Seq<CandidateResult>)
    requires
        unique_ids(s),
    ensures
        spec_sorted(s).len() == s.len(),
        forall|i: int| 0 <= i < spec_sorted(s).len() ==> s.contains(#[trigger] spec_sorted(s)[i]),
        forall|i: int| 0 <= i < s.len() ==> spec_sorted(s).contains(#[trigger] s[i]),
        ranked(spec_sorted(s)),
        unique_ids(spec_sorted(s)),
    decreases s.len(),
{
    let r = spec_sorted(s);
    if s.len() == 0 {
    } else {
        let t = s.drop_last();
        let x = s.last();
        let rt = spec_sorted(t);
        assert(unique_ids(t));
        lemma_spec_sorted_props(t);
        lemma_sorted_insert_elems(rt, x);
        // x's id does not occur in rt: rt's elements come from t, and s has
        // unique ids with x at the last position.
        assert forall|i: int| 0 <= i < rt.len() implies
            (#[trigger] rt[i]).id != x.id || rt[i].distance != x.distance by {
            let j = choose|j: int| 0 <= j < t.len() && t[j] == rt[i];
            assert(s[j] == t[j]);
            assert(s[j].id != s[s.len() - 1].id);
        }
        lemma_sorted_insert_ranked(rt, x);
        assert forall|i: int| 0 <= i < r.len() implies s.contains(#[trigger] r[i]) by {
            if r[i] == x {
                assert(s[s.len() - 1] == x);
            } else {
                assert(rt.contains(r[i]));
                let j = choose|j: int| 0 <= j < rt.len() && rt[j] == r[i];
                assert(t.contains(rt[j]));
                let w = choose|w: int| 0 <= w < t.len() && t[w] == rt[j];
                assert(s[w] == t[w]);
            }
        }
        assert forall|i: int| 0 <= i < s.len() implies r.contains(#[trigger] s[i]) by {
            if i == s.len() - 1 {
                assert(r.contains(x));
            } else {
                assert(t[i] == s[i]);
                assert(rt.contains(t[i]));
                let j = choose|j: int| 0 <= j < rt.len() && rt[j] == t[i];
                assert(r.contains(rt[j]));
            }
        }
        // Unique ids: ranked gives distinct entries, and two distinct
        // entries of r with one id would be two entries of s with one id.
        assert forall|i: int, j: int| 0 <= i < j < r.len() implies r[i].id != r[j].id by {
            assert(key_lt(r[i], r[j]));
            if r[i].id == r[j].id {
                assert(r[i].distance != r[j].distance || r[i].id != r[j].id);
                let wi = choose|w: int| 0 <= w < s.len() && s[w] == r[i];
                let wj = choose|w: int| 0 <= w < s.len() && s[w] == r[j];
                assert(s[wi].id == s[wj].id);
                assert(wi == wj);
            }
        }
    }
}

fn key_before(a: CandidateResult, b: CandidateResult) -> (r: bool)
    ensures
        r == key_lt(a, b),
{
    a.distance < b.distance || (a.distance == b.distance && a.id < b.id)
}

pub proof fn lemma_sorted_insert_at(s: Seq<CandidateResult>, x: CandidateResult, idx: int)
    requires
        0 <= idx <= s.len(),
        forall|j: int| 0 <= j < idx ==> !key_lt(x, #[trigger] s[j]),
        idx < s.len() ==> key_lt(x, s[idx]),
    ensures
        sorted_insert(s, x) == s.insert(idx, x),
    decreases s.len(),
{
    if s.len() == 0 {
        assert(sorted_insert(s, x) =~= s.insert(0, x));
    } else if idx == 0 {
        assert(sorted_insert(s, x) =~= s.insert(0, x));
    } else {
        let t = s.drop_first();
        assert(!key_lt(x, s[0]));
        assert forall|j: int| 0 <= j < idx - 1 implies !key_lt(x, #[trigger] t[j]) by {
            assert(t[j] == s[j + 1]);
        }
        if idx - 1 < t.len() {
            assert(t[idx - 1] == s[idx]);
        }
        lemma_sorted_insert_at(t, x, idx - 1);
        assert(sorted_insert(s, x) =~= s.insert(idx, x));
    }
}

/// The position in front of the first entry that `x` ranks before.
fn insert_position(r: &Vec<CandidateResult>, x: CandidateResult) -> (idx: usize)
    ensures
        idx <= r@.len(),
        forall|j: int| 0 <= j < idx ==> !key_lt(x, #[trigger] r@[j]),
        idx < r@.len() ==> key_lt(x, r@[idx as int]),
{
    let mut idx: usize = 0;
    while idx < r.len()
        invariant
            idx <= r@.len(),
            forall|j: int| 0 <= j < idx ==> !key_lt(x, #[trigger] r@[j]),
        ensures
            idx <= r@.len(),
            forall|j: int| 0 <= j < idx ==> !key_lt(x, #[trigger] r@[j]),
            idx < r@.len() ==> key_lt(x, r@[idx as int]),
        decreases r@.len() - idx,
    {
        if key_before(x, r[idx]) {
            break;
        }
        idx = idx + 1;
    }
    idx
}

/// Sorts candidates into the ranking order.
pub fn rank_candidates(v: &Vec<CandidateResult>) -> (r: Vec<CandidateResult>)
    ensures
        r@ == spec_sorted(v@),
{
    let mut r: Vec<CandidateResult> = Vec::new();
    let mut i: usize = 0;
    proof {
        assert(v@.take(0) =~= Seq::<CandidateResult>::empty());
    }
    while i < v.len()
        invariant
            i <= v@.len(),
            r@ == spec_sorted(v@.take(i as int)),
        decreases v@.len() - i,
    {
        let x = v[i];
        let idx = insert_position(&r, x);
        proof {
            lemma_sorted_insert_at(r@, x, idx as int);
            assert(v@.take(i as int + 1).drop_last() =~= v@.take(i as int));
            assert(v@.take(i as int + 1).last() == v@[i as int]);
        }
        r.insert(idx, x);
        i = i + 1;
    }
    proof {
        assert(v@.take(v@.len() as int) =~= v@);
    }
    r
}

} // verus!
