//! The two-thirds threshold of a payload-timeliness committee vote.

use vstd::prelude::*;

verus! {

/// `x` multiplied out, held at `usize::MAX` where the product does not fit.
pub open spec fn saturated(x: int) -> int {
    if x > usize::MAX {
        usize::MAX as int
    } else {
        x
    }
}

/// Whether `true_count` votes out of `committee_size` reach two thirds,
/// comparing `3 * true_count` and `2 * committee_size`, each product held at
/// `usize::MAX` where it does not fit.
pub open spec fn spec_two_thirds(true_count: nat, committee_size: nat) -> bool {
    saturated(3 * true_count as int) >= saturated(2 * committee_size as int)
}

fn saturating_times(x: usize, k: usize) -> (r: usize)
    ensures
        r == saturated(x * k),
{
    match x.checked_mul(k) {
        Some(p) => p,
        None => usize::MAX,
    }
}

/// Whether `true_count` votes reach two thirds of `committee_size`.
pub fn has_two_thirds_supermajority(true_count: usize, committee_size: usize) -> (r: bool)
    ensures
        r == spec_two_thirds(true_count as nat, committee_size as nat),
{
    saturating_times(true_count, 3) >= saturating_times(committee_size, 2)
}

/// Where neither product saturates, the threshold is exactly
/// `3 * true_count >= 2 * committee_size`.
pub proof fn lemma_two_thirds_exact(true_count: nat, committee_size: nat)
    requires
        3 * true_count <= usize::MAX,
        2 * committee_size <= usize::MAX,
    ensures
        spec_two_thirds(true_count, committee_size) <==> 3 * true_count >= 2 * committee_size,
{
}

/// More votes never lose a majority that fewer votes reached.
pub proof fn lemma_two_thirds_monotonic(a: nat, b: nat, committee_size: nat)
    requires
        a <= b,
        spec_two_thirds(a, committee_size),
    ensures
        spec_two_thirds(b, committee_size),
{
}

} // verus!
