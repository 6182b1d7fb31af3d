//! Request validation: the segment identifier must parse as a unique
//! identifier before any work is dispatched.

use vstd::prelude::*;

verus! {

/// Whether a string is a well-formed unique identifier for a segment.
/// Named after the outside parser that decides it; a function of the
/// characters alone.
pub uninterp spec fn uuid_ok(s: Seq<char>) -> bool;

/// Relies on uuid::Uuid::parse_str: accepts exactly the textual UUID
/// forms (simple, hyphenated, urn, braced), deciding on the input
/// characters alone, deterministically.
#[verifier::external_body]
pub(crate) fn segment_id_is_valid(s: &str) -> (r: bool)
    ensures
        r == uuid_ok(s@),
{
    uuid::Uuid::parse_str(s).is_ok()
}

} // verus!
