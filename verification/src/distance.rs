//! Squared Euclidean distance over fixed-point embedding components.

use vstd::prelude::*;

verus! {

/// Sum of squared component differences over the first `n` positions.
pub open spec fn sq_dist_prefix(a: Seq<i32>, b: Seq<i32>, n: nat) -> int
    decreases n,
{
    if n == 0 {
        0
    } else {
        sq_dist_prefix(a, b, (n - 1) as nat)
            + (a[n - 1] - b[n - 1]) * (a[n - 1] - b[n - 1])
    }
}

/// Squared Euclidean distance between two vectors of equal dimension.
pub open spec fn spec_sq_dist(a: Seq<i32>, b: Seq<i32>) -> int {
    sq_dist_prefix(a, b, a.len())
}

pub proof fn lemma_sq_dist_prefix_mono(a: Seq<i32>, b: Seq<i32>, m: nat, n: nat)
    requires
        m <= n,
    ensures
        sq_dist_prefix(a, b, m) <= sq_dist_prefix(a, b, n),
        0 <= sq_dist_prefix(a, b, m),
    decreases n,
{
    if n > 0 {
        let d = a[n - 1] - b[n - 1];
        assert(d * d >= 0) by (nonlinear_arith);
        if m == n {
            lemma_sq_dist_prefix_mono(a, b, (m - 1) as nat, (n - 1) as nat);
        } else {
            lemma_sq_dist_prefix_mono(a, b, m, (n - 1) as nat);
        }
    }
}

/// Computes the squared Euclidean distance. The caller guarantees the
/// mathematical result fits the distance word, so no overflow occurs.
pub fn sq_dist(a: &Vec<i32>, b: &Vec<i32>) -> (r: u64)
    requires
        a@.len() == b@.len(),
        spec_sq_dist(a@, b@) <= u64::MAX,
    ensures
        r == spec_sq_dist(a@, b@),
{
    let mut acc: u64 = 0;
    let mut i: usize = 0;
    while i < a.len()
        invariant
            i <= a@.len(),
            a@.len() == b@.len(),
            spec_sq_dist(a@, b@) <= u64::MAX,
            acc == sq_dist_prefix(a@, b@, i as nat),
        decreases a@.len() - i,
    {
        let d: i64 = (a[i] as i64) - (b[i] as i64);
        proof {
            let dd = a@[i as int] - b@[i as int];
            assert(0 <= dd * dd < 0x1_0000_0000_0000_0000) by (nonlinear_arith)
                requires -0x1_0000_0000 < dd < 0x1_0000_0000;
            lemma_sq_dist_prefix_mono(a@, b@, (i + 1) as nat, a@.len());
            lemma_sq_dist_prefix_mono(a@, b@, i as nat, (i + 1) as nat);
        }
        let sq: i128 = (d as i128) * (d as i128);
        acc = acc + (sq as u64);
        i = i + 1;
    }
    acc
}

} // verus!
