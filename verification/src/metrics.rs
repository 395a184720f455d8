//! The integer half of the latency histogram: one-millisecond buckets and
//! the bucket that bounds the 95th percentile.
use vstd::prelude::*;

verus! {

/// Number of buckets: 0 ms to 499 ms, and 500 ms or more.
pub const LATENCY_BUCKETS: usize = 501;

/// Samples in the first `n` buckets.
pub open spec fn cumulative(buckets: Seq<u64>, n: int) -> int
    decreases n,
{
    if n <= 0 {
        0
    } else {
        cumulative(buckets, n - 1) + buckets[n - 1]
    }
}

/// Samples that must lie at or below the 95th percentile: 95% of `count`,
/// rounded up.
pub open spec fn p95_threshold(count: u64) -> int {
    (count * 95 + 99) / 100
}

/// The first bucket, from `i` on, at which the running count reaches
/// `threshold`; the last bucket's index when none does.
pub open spec fn first_reaching(buckets: Seq<u64>, threshold: int, i: int) -> int
    decreases buckets.len() - i,
{
    if i >= buckets.len() {
        (LATENCY_BUCKETS - 1) as int
    } else if cumulative(buckets, i + 1) >= threshold {
        i
    } else {
        first_reaching(buckets, threshold, i + 1)
    }
}

/// Index of the bucket that bounds the 95th percentile of `count` samples:
/// the first at which the running count reaches 95% of `count` (rounded
/// up), or the last bucket when none does.
pub fn p95_bucket(buckets: &[u64; 501], count: u64) -> (r: usize)
    requires
        count * 95 <= u64::MAX,
    ensures
        r == first_reaching(buckets@, p95_threshold(count), 0),
        r < LATENCY_BUCKETS,
{
    let scaled: u64 = count * 95;
    let threshold: u64 = scaled / 100 + if scaled % 100 == 0 {
        0
    } else {
        1
    };
    let mut total: u128 = 0;
    let mut i: usize = 0;
    while i < 501
        invariant
            buckets@.len() == 501,
            i <= 501,
            threshold == p95_threshold(count),
            total == cumulative(buckets@, i as int),
            total <= i * 0xffff_ffff_ffff_ffff,
            first_reaching(buckets@, threshold as int, 0) == first_reaching(
                buckets@,
                threshold as int,
                i as int,
            ),
        decreases 501 - i,
    {
        total = total + buckets[i] as u128;
        if total >= threshold as u128 {
            return i;
        }
        i = i + 1;
    }
    500
}

} // verus!
