//! Shared data model of the query path.

use vstd::prelude::*;

verus! {

/// One scored candidate: an id and its distance to a query vector
/// (lower is closer). Embeddings are attached later, at projection.
#[derive(Clone, Copy, Debug, PartialEq, Eq, Structural)]
pub struct CandidateResult {
    pub id: u64,
    pub distance: u64,
}

/// One mutation-log entry. A record with no embedding is a delete
/// (tombstone). A later sequence number supersedes an earlier one for
/// the same id.
#[derive(Clone, Debug)]
pub struct LogRecord {
    pub id: u64,
    pub seq: u64,
    pub embedding: Option<Vec<i32>>,
}

/// The externally visible result shape: id, distance, and the embedding
/// when the query asked for embeddings.
#[derive(Clone, Debug, PartialEq, Eq)]
pub struct OutputResult {
    pub id: u64,
    pub distance: u64,
    pub embedding: Option<Vec<i32>>,
}

/// The view of an optional embedding as an optional sequence.
pub open spec fn emb_view(e: Option<Vec<i32>>) -> Option<Seq<i32>> {
    match e {
        Some(v) => Some(v@),
        None => None,
    }
}

/// The plain view of one log record: id, sequence number, embedding.
pub open spec fn rec_view(r: LogRecord) -> (u64, u64, Option<Seq<i32>>) {
    (r.id, r.seq, emb_view(r.embedding))
}

/// The plain view of a log-record sequence.
pub open spec fn records_view(s: Seq<LogRecord>) -> Seq<(u64, u64, Option<Seq<i32>>)> {
    s.map_values(|r: LogRecord| rec_view(r))
}

/// The plain view of an (id, embedding) pair sequence.
pub open spec fn pairs_view(s: Seq<(u64, Vec<i32>)>) -> Seq<(u64, Seq<i32>)> {
    s.map_values(|p: (u64, Vec<i32>)| (p.0, p.1@))
}

} // verus!
