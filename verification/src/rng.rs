use vstd::prelude::*;

use rand::seq::IndexedRandom;

verus! {

/// Relies on `rand::random`: a fresh 64-bit value from the thread RNG.
/// Nothing can be promised of a random draw.
#[verifier::external_body]
pub(crate) fn random_u64() -> u64 {
    rand::random::<u64>()
}

/// Relies on `rand::random_range`: a draw from the half-open range
/// `lo..hi`, which its documentation promises to stay inside; it panics
/// on an empty range, which the precondition rules out.
#[verifier::external_body]
pub(crate) fn random_in_range(lo: usize, hi: usize) -> (r: usize)
    requires
        lo < hi,
    ensures
        lo <= r < hi,
{
    rand::random_range(lo..hi)
}

/// Relies on `rand::random_ratio`: true with probability `num/den`;
/// its documentation guarantees the result at the two extremes, and it
/// panics when `den == 0` or `num > den`, which the precondition rules out.
#[verifier::external_body]
pub(crate) fn random_ratio_bool(num: u32, den: u32) -> (r: bool)
    requires
        0 < den,
        num <= den,
    ensures
        num == 0 ==> !r,
        num == den ==> r,
{
    rand::random_ratio(num, den)
}

/// Relies on rand's `IndexedRandom::sample`: `amount` elements drawn at
/// pairwise distinct positions of the pool, so the result is a
/// sub-multiset of the pool; all elements when the pool is smaller.
#[verifier::external_body]
pub(crate) fn sample_distinct(pool: &Vec<u64>, amount: usize) -> (r: Vec<u64>)
    ensures
        r@.len() == if amount <= pool@.len() {
            amount as int
        } else {
            pool@.len() as int
        },
        r@.to_multiset().subset_of(pool@.to_multiset()),
{
    let mut rng = rand::rng();
    pool.as_slice().sample(&mut rng, amount).cloned().collect()
}

} // verus!
