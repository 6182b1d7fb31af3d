//! Log retrieval support: compaction of raw mutation records into the
//! newest record per id, and the split into live candidates and
//! deletion tombstones.

use vstd::prelude::*;
use crate::types::{LogRecord, emb_view, rec_view, records_view, pairs_view};

verus! {

/// Log order: sequence numbers strictly increase by position.
pub open spec fn seqs_increasing(s: Seq<LogRecord>) -> bool {
    forall|i: int, j: int| 0 <= i < j < s.len() ==> (#[trigger] s[i]).seq < (#[trigger] s[j]).seq
}

/// No id occurs twice.
pub open spec fn unique_rec_ids(s: Seq<LogRecord>) -> bool {
    forall|i: int, j: int| 0 <= i < j < s.len() ==> (#[trigger] s[i]).id != (#[trigger] s[j]).id
}

/// Record equality on the plain values.
pub open spec fn rec_matches(a: LogRecord, b: LogRecord) -> bool {
    a.id == b.id && a.seq == b.seq && emb_view(a.embedding) == emb_view(b.embedding)
}

pub open spec fn has_rec_id(s: Seq<LogRecord>, id: u64) -> bool {
    exists|i: int| 0 <= i < s.len() && s[i].id == id
}

/// `rec` is one of `records`, on the plain values.
pub open spec fn matches_some(records: Seq<LogRecord>, rec: LogRecord) -> bool {
    exists|j: int| 0 <= j < records.len() && rec_matches(rec, #[trigger] records[j])
}

/// (`id`, `e`) is the id and embedding of one of the compacted records.
pub open spec fn derived_from(compacted: Seq<LogRecord>, id: u64, e: Seq<i32>) -> bool {
    exists|j: int| 0 <= j < compacted.len() && (#[trigger] compacted[j]).id == id
        && emb_view(compacted[j].embedding) == Some(e)
}

/// Whether some plain entry carries `id`.
pub open spec fn has_plain_id(s: Seq<(u64, u64, Option<Seq<i32>>)>, id: u64) -> bool {
    exists|i: int| 0 <= i < s.len() && (#[trigger] s[i]).0 == id
}

/// The position of the entry carrying `id`.
pub open spec fn idx_of_id(s: Seq<(u64, u64, Option<Seq<i32>>)>, id: u64) -> int {
    choose|i: int| 0 <= i < s.len() && (#[trigger] s[i]).0 == id
}

/// The compacted view of an ordered mutation run: one entry per id, the
/// newest record of that id, keeping only records at or past `bound`.
pub open spec fn spec_compact(rs: Seq<(u64, u64, Option<Seq<i32>>)>, bound: u64) -> Seq<(u64, u64, Option<Seq<i32>>)>
    decreases rs.len(),
{
    if rs.len() == 0 {
        Seq::empty()
    } else {
        let prev = spec_compact(rs.drop_last(), bound);
        let rec = rs.last();
        if rec.1 >= bound {
            if has_plain_id(prev, rec.0) {
                prev.update(idx_of_id(prev, rec.0), rec)
            } else {
                prev.push(rec)
            }
        } else {
            prev
        }
    }
}

/// The live (id, embedding) pairs of a compacted view, in order.
pub open spec fn spec_live_pairs(rs: Seq<(u64, u64, Option<Seq<i32>>)>) -> Seq<(u64, Seq<i32>)>
    decreases rs.len(),
{
    if rs.len() == 0 {
        Seq::empty()
    } else {
        let rest = spec_live_pairs(rs.drop_last());
        match rs.last().2 {
            Some(e) => rest.push((rs.last().0, e)),
            None => rest,
        }
    }
}

/// The deleted ids of a compacted view, in order.
pub open spec fn spec_tombs(rs: Seq<(u64, u64, Option<Seq<i32>>)>) -> Seq<u64>
    decreases rs.len(),
{
    if rs.len() == 0 {
        Seq::empty()
    } else {
        let rest = spec_tombs(rs.drop_last());
        match rs.last().2 {
            Some(_) => rest,
            None => rest.push(rs.last().0),
        }
    }
}

/// The newest mutation for `id` at or past `bound` is a delete.
pub open spec fn deleted_in_log(records: Seq<LogRecord>, bound: u64, id: u64) -> bool {
    exists|j: int| 0 <= j < records.len()
        && (#[trigger] records[j]).id == id
        && records[j].seq >= bound
        && records[j].embedding is None
        && (forall|w: int| 0 <= w < records.len() && (#[trigger] records[w]).id == id
            ==> records[w].seq <= records[j].seq)
}

/// Some pair of `r` carries exactly (`id`, `e`).
pub open spec fn pair_with(r: Seq<(u64, Vec<i32>)>, id: u64, e: Seq<i32>) -> bool {
    exists|i: int| 0 <= i < r.len() && (#[trigger] r[i]).0 == id && r[i].1@ == e
}

fn clone_embedding(e: &Option<Vec<i32>>) -> (r: Option<Vec<i32>>)
    ensures
        emb_view(r) == emb_view(*e),
{
    match e {
        Some(v) => {
            let c = v.clone();
            proof {
                assert(c@ =~= v@);
            }
            Some(c)
        },
        None => None,
    }
}

fn copy_record(rec: &LogRecord) -> (r: LogRecord)
    ensures
        rec_matches(r, *rec),
{
    LogRecord { id: rec.id, seq: rec.seq, embedding: clone_embedding(&rec.embedding) }
}

/// Compacts an ordered run of mutation records: one record per id — the
/// newest — keeping only records with sequence number at or past `bound`
/// (the compaction watermark: older mutations are already reflected in
/// the index).
pub fn compact_log(records: &Vec<LogRecord>, bound: u64) -> (r: Vec<LogRecord>)
    requires
        seqs_increasing(records@),
    ensures
        records_view(r@) == spec_compact(records_view(records@), bound),
        unique_rec_ids(r@),
        forall|i: int| 0 <= i < r@.len() ==> matches_some(records@, #[trigger] r@[i]),
        forall|i: int| 0 <= i < r@.len() ==> (#[trigger] r@[i]).seq >= bound,
        forall|i: int, j: int|
            0 <= i < r@.len() && 0 <= j < records@.len()
                && (#[trigger] records@[j]).id == (#[trigger] r@[i]).id
            ==> records@[j].seq <= r@[i].seq,
        forall|j: int| 0 <= j < records@.len() && (#[trigger] records@[j]).seq >= bound
            ==> has_rec_id(r@, records@[j].id),
{
    let mut r: Vec<LogRecord> = Vec::new();
    let mut t: usize = 0;
    proof {
        assert(records_view(records@.take(0)) =~= Seq::<(u64, u64, Option<Seq<i32>>)>::empty());
        assert(records_view(r@) =~= Seq::<(u64, u64, Option<Seq<i32>>)>::empty());
    }
    while t < records.len()
        invariant
            t <= records@.len(),
            seqs_increasing(records@),
            records_view(r@) == spec_compact(records_view(records@.take(t as int)), bound),
            unique_rec_ids(r@),
            forall|i: int| 0 <= i < r@.len() ==> matches_some(records@, #[trigger] r@[i]),
            forall|i: int| 0 <= i < r@.len() ==> (#[trigger] r@[i]).seq >= bound,
            forall|i: int, j: int|
                0 <= i < r@.len() && 0 <= j < t
                    && (#[trigger] records@[j]).id == (#[trigger] r@[i]).id
                ==> records@[j].seq <= r@[i].seq,
            forall|j: int| 0 <= j < t && (#[trigger] records@[j]).seq >= bound
                ==> has_rec_id(r@, records@[j].id),
        decreases records@.len() - t,
    {
        let rec = &records[t];
        proof {
            assert(records_view(records@.take(t + 1 as int)).drop_last()
                =~= records_view(records@.take(t as int)));
            assert(records_view(records@.take(t + 1 as int)).last()
                == rec_view(records@[t as int]));
        }
        if rec.seq >= bound {
            let fresh = copy_record(rec);
            let mut i: usize = 0;
            let mut found = false;
            while i < r.len()
                invariant_except_break
                    !found,
                invariant
                    i <= r@.len(),
                    forall|w: int| 0 <= w < i ==> (#[trigger] r@[w]).id != rec.id,
                ensures
                    i <= r@.len(),
                    found ==> i < r@.len() && r@[i as int].id == rec.id,
                    !found ==> forall|w: int| 0 <= w < r@.len() ==> (#[trigger] r@[w]).id != rec.id,
                decreases r@.len() - i,
            {
                if r[i].id == rec.id {
                    found = true;
                    break;
                }
                i = i + 1;
            }
            let ghost prev = r@;
            if found {
                // A later record supersedes the one held so far.
                r.remove(i);
                r.insert(i, fresh);
                proof {
                    assert(r@ =~= prev.update(i as int, fresh));
                }
            } else {
                r.push(fresh);
            }
            proof {
                let prev_s = records_view(prev);
                let rvt1 = records_view(records@.take(t + 1 as int));
                if found {
                    assert(records_view(r@) =~= prev_s.update(i as int, rec_view(fresh)));
                    assert(rec_view(fresh) == rec_view(records@[t as int]));
                    assert(prev_s[i as int].0 == prev[i as int].id);
                    assert(has_plain_id(prev_s, rec.id));
                    let j = idx_of_id(prev_s, rec.id);
                    assert(0 <= j < prev_s.len() && prev_s[j].0 == rec.id);
                    assert(prev[j].id == rec.id);
                    if j < i as int {
                        assert(prev[j].id != prev[i as int].id);
                    } else if (i as int) < j {
                        assert(prev[i as int].id != prev[j].id);
                    }
                    assert(j == i as int);
                    assert(spec_compact(rvt1, bound)
                        == prev_s.update(i as int, rec_view(records@[t as int])));
                } else {
                    assert forall|w: int| 0 <= w < prev_s.len() implies
                        (#[trigger] prev_s[w]).0 != rec.id by {
                        assert(prev_s[w].0 == prev[w].id);
                    }
                    assert(!has_plain_id(prev_s, rec.id));
                    assert(records_view(r@) =~= prev_s.push(rec_view(records@[t as int])));
                    assert(spec_compact(rvt1, bound)
                        == prev_s.push(rec_view(records@[t as int])));
                }
                assert(records_view(r@) == spec_compact(rvt1, bound));
                let n = r@.len();
                assert forall|i2: int| 0 <= i2 < n implies
                    matches_some(records@, #[trigger] r@[i2]) by {
                    if (found && i2 == i) || (!found && i2 == n - 1) {
                        assert(rec_matches(r@[i2], records@[t as int]));
                    } else {
                        assert(r@[i2] == prev[i2]);
                    }
                }
                assert forall|i2: int, j2: int| 0 <= i2 < n && 0 <= j2 < n && i2 != j2 implies
                    (#[trigger] r@[i2]).id != (#[trigger] r@[j2]).id by {
                    if found {
                        assert(r@[i2] == if i2 == i { fresh } else { prev[i2] });
                        assert(r@[j2] == if j2 == i { fresh } else { prev[j2] });
                        assert(fresh.id == prev[i as int].id);
                    }
                }
                assert forall|i2: int, j: int|
                    0 <= i2 < n && 0 <= j < t + 1
                        && (#[trigger] records@[j]).id == (#[trigger] r@[i2]).id
                    implies records@[j].seq <= r@[i2].seq by {
                    let is_new = (found && i2 == i) || (!found && i2 == n - 1);
                    if is_new {
                        if j < t {
                            assert(records@[j].seq < records@[t as int].seq);
                        }
                    } else {
                        assert(r@[i2] == prev[i2]);
                        if j == t {
                            // The current record's id is not this entry's id:
                            // otherwise the scan would have found it here.
                            if found {
                                assert(prev[i as int].id == rec.id);
                                assert(r@[i as int].id == rec.id);
                            }
                        }
                    }
                }
                assert forall|j: int| 0 <= j < t + 1 && (#[trigger] records@[j]).seq >= bound
                    implies has_rec_id(r@, records@[j].id) by {
                    if j == t {
                        if found {
                            assert(r@[i as int].id == records@[t as int].id);
                        } else {
                            assert(r@[n - 1].id == records@[t as int].id);
                        }
                    } else {
                        let w = choose|w: int| 0 <= w < prev.len() && prev[w].id == records@[j].id;
                        if found && w == i {
                            assert(r@[w].id == fresh.id);
                            assert(fresh.id == prev[i as int].id);
                        } else {
                            assert(r@[w] == prev[w]);
                        }
                        assert(r@[w].id == records@[j].id);
                    }
                }
            }
        } else {
            proof {
                assert(spec_compact(records_view(records@.take(t + 1 as int)), bound)
                    == spec_compact(records_view(records@.take(t as int)), bound));
                assert forall|j: int| 0 <= j < t + 1 && (#[trigger] records@[j]).seq >= bound
                    implies has_rec_id(r@, records@[j].id) by {
                }
            }
        }
        t = t + 1;
    }
    proof {
        assert(records@.take(t as int) =~= records@);
        assert(records_view(records@.take(t as int)) == records_view(records@));
    }
    r
}

/// The live entries of a compacted log, as (id, embedding) candidates
/// for the exact search. Records without an embedding are deletes and
/// carry no candidate.
pub fn live_candidates(compacted: &Vec<LogRecord>) -> (r: Vec<(u64, Vec<i32>)>)
    ensures
        pairs_view(r@) == spec_live_pairs(records_view(compacted@)),
        forall|i: int| 0 <= i < r@.len()
            ==> derived_from(compacted@, (#[trigger] r@[i]).0, r@[i].1@),
        forall|j: int| 0 <= j < compacted@.len()
            && emb_view((#[trigger] compacted@[j]).embedding) is Some
            ==> pair_with(r@, compacted@[j].id, emb_view(compacted@[j].embedding)->Some_0),
        unique_rec_ids(compacted@)
            ==> forall|i1: int, i2: int| 0 <= i1 < i2 < r@.len()
                ==> (#[trigger] r@[i1]).0 != (#[trigger] r@[i2]).0,
{
    let mut r: Vec<(u64, Vec<i32>)> = Vec::new();
    let ghost mut js: Seq<int> = Seq::empty();
    let mut t: usize = 0;
    proof {
        assert(records_view(compacted@.take(0)) =~= Seq::<(u64, u64, Option<Seq<i32>>)>::empty());
        assert(pairs_view(r@) =~= Seq::<(u64, Seq<i32>)>::empty());
    }
    while t < compacted.len()
        invariant
            t <= compacted@.len(),
            pairs_view(r@) == spec_live_pairs(records_view(compacted@.take(t as int))),
            js.len() == r@.len(),
            forall|i: int| 0 <= i < r@.len() ==> 0 <= #[trigger] js[i] < t,
            forall|i1: int, i2: int| 0 <= i1 < i2 < r@.len() ==> js[i1] < js[i2],
            forall|i: int| 0 <= i < r@.len()
                ==> (#[trigger] r@[i]).0 == compacted@[js[i]].id
                    && emb_view(compacted@[js[i]].embedding) == Some(r@[i].1@),
            forall|j: int| 0 <= j < t && (#[trigger] compacted@[j]).embedding is Some
                ==> exists|i: int| 0 <= i < r@.len() && #[trigger] js[i] == j,
        decreases compacted@.len() - t,
    {
        proof {
            assert(records_view(compacted@.take(t + 1 as int)).drop_last()
                =~= records_view(compacted@.take(t as int)));
            assert(records_view(compacted@.take(t + 1 as int)).last()
                == rec_view(compacted@[t as int]));
        }
        match &compacted[t].embedding {
            Some(v) => {
                let c = v.clone();
                proof {
                    assert(c@ =~= v@);
                }
                let ghost prev_r = r@;
                r.push((compacted[t].id, c));
                proof {
                    assert(pairs_view(r@) =~= pairs_view(prev_r).push((compacted@[t as int].id, c@)));
                    assert(pairs_view(r@)
                        == spec_live_pairs(records_view(compacted@.take(t + 1 as int))));
                    let prev = js;
                    js = js.push(t as int);
                    let n = r@.len();
                    assert(js[n - 1] == t as int);
                    assert(forall|i: int| 0 <= i < n - 1 ==> #[trigger] js[i] == prev[i]);
                    assert forall|j: int| 0 <= j < t + 1
                        && (#[trigger] compacted@[j]).embedding is Some implies
                        exists|i: int| 0 <= i < n && #[trigger] js[i] == j by {
                        if j == t {
                            assert(js[n - 1] == j);
                        } else {
                            let i = choose|i: int| 0 <= i < n - 1 && #[trigger] prev[i] == j;
                            assert(js[i] == j);
                        }
                    }
                }
            },
            None => {},
        }
        t = t + 1;
    }
    proof {
        assert(compacted@.take(t as int) =~= compacted@);
        assert(records_view(compacted@.take(t as int)) == records_view(compacted@));
        assert forall|i: int| 0 <= i < r@.len() implies
            derived_from(compacted@, (#[trigger] r@[i]).0, r@[i].1@) by {
            let j = js[i];
            assert(0 <= j < compacted@.len()
                && compacted@[j].id == r@[i].0
                && emb_view(compacted@[j].embedding) == Some(r@[i].1@));
        }
        assert forall|j: int| 0 <= j < compacted@.len()
            && emb_view((#[trigger] compacted@[j]).embedding) is Some implies
            pair_with(r@, compacted@[j].id, emb_view(compacted@[j].embedding)->Some_0) by {
            let i = choose|i: int| 0 <= i < r@.len() && #[trigger] js[i] == j;
            assert(r@[i].0 == compacted@[j].id
                && r@[i].1@ == emb_view(compacted@[j].embedding)->Some_0);
        }
        if unique_rec_ids(compacted@) {
            assert forall|i1: int, i2: int| 0 <= i1 < i2 < r@.len() implies
                (#[trigger] r@[i1]).0 != (#[trigger] r@[i2]).0 by {
                assert(js[i1] < js[i2]);
                assert(compacted@[js[i1]].id != compacted@[js[i2]].id);
            }
        }
    }
    r
}

/// The deleted ids of a compacted log: records without an embedding.
#[verifier::spinoff_prover]
pub fn tombstones(compacted: &Vec<LogRecord>) -> (r: Vec<u64>)
    ensures
        r@ == spec_tombs(records_view(compacted@)),
        forall|id: u64| r@.contains(id)
            <==> exists|j: int| 0 <= j < compacted@.len()
                && (#[trigger] compacted@[j]).id == id && compacted@[j].embedding is None,
{
    let mut r: Vec<u64> = Vec::new();
    let ghost mut js: Seq<int> = Seq::empty();
    let mut t: usize = 0;
    proof {
        assert(records_view(compacted@.take(0)) =~= Seq::<(u64, u64, Option<Seq<i32>>)>::empty());
        assert(r@ =~= Seq::<u64>::empty());
    }
    while t < compacted.len()
        invariant
            t <= compacted@.len(),
            r@ == spec_tombs(records_view(compacted@.take(t as int))),
            js.len() == r@.len(),
            forall|i: int| 0 <= i < r@.len() ==> 0 <= #[trigger] js[i] < t,
            forall|i: int| 0 <= i < r@.len()
                ==> (#[trigger] r@[i]) == compacted@[js[i]].id
                    && compacted@[js[i]].embedding is None,
            forall|j: int| 0 <= j < t && (#[trigger] compacted@[j]).embedding is None
                ==> exists|i: int| 0 <= i < r@.len() && #[trigger] js[i] == j,
        decreases compacted@.len() - t,
    {
        proof {
            assert(records_view(compacted@.take(t + 1 as int)).drop_last()
                =~= records_view(compacted@.take(t as int)));
            assert(records_view(compacted@.take(t + 1 as int)).last()
                == rec_view(compacted@[t as int]));
        }
        match &compacted[t].embedding {
            Some(_) => {},
            None => {
                let ghost prev_r = r@;
                r.push(compacted[t].id);
                proof {
                    let prev = js;
                    js = js.push(t as int);
                    let n = r@.len();
                    assert(js[n - 1] == t as int);
                    assert(forall|i: int| 0 <= i < n - 1 ==> #[trigger] js[i] == prev[i]);
                    assert forall|i: int| 0 <= i < n implies
                        (#[trigger] r@[i]) == compacted@[js[i]].id
                        && compacted@[js[i]].embedding is None by {
                        if i < n - 1 {
                            assert(r@[i] == prev_r[i]);
                            assert(js[i] == prev[i]);
                        } else {
                            assert(js[i] == t as int);
                            assert(r@[i] == compacted@[t as int].id);
                        }
                    }
                    assert forall|j: int| 0 <= j < t + 1
                        && (#[trigger] compacted@[j]).embedding is None implies
                        exists|i: int| 0 <= i < n && #[trigger] js[i] == j by {
                        if j == t {
                            assert(js[n - 1] == j);
                        } else {
                            let i = choose|i: int| 0 <= i < n - 1 && #[trigger] prev[i] == j;
                            assert(js[i] == j);
                        }
                    }
                }
            },
        }
        t = t + 1;
    }
    proof {
        assert(compacted@.take(t as int) =~= compacted@);
        assert(records_view(compacted@.take(t as int)) == records_view(compacted@));
        assert forall|id: u64| #[trigger] r@.contains(id) implies
            exists|j: int| 0 <= j < compacted@.len()
                && (#[trigger] compacted@[j]).id == id && compacted@[j].embedding is None by {
            let w = choose|w: int| 0 <= w < r@.len() && r@[w] == id;
            assert(compacted@[js[w]].id == id && compacted@[js[w]].embedding is None);
        }
        assert forall|id: u64|
            (exists|j: int| 0 <= j < compacted@.len()
                && (#[trigger] compacted@[j]).id == id && compacted@[j].embedding is None)
            implies #[trigger] r@.contains(id) by {
            let j = choose|j: int| 0 <= j < compacted@.len()
                && compacted@[j].id == id && compacted@[j].embedding is None;
            let i = choose|i: int| 0 <= i < r@.len() && #[trigger] js[i] == j;
            assert(r@[i] == id);
        }
    }
    r
}


} // verus!
