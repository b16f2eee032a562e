//! Helpers of the benchmark that compares plain and super-instruction runs.
//!
//! Durations are handled as whole nanoseconds.

pub mod analysis;
pub mod bytecode_text;
pub mod calldata;

use vstd::prelude::*;
use vstd::relations::{sorted_by, total_ordering};
use vstd::seq_lib::lemma_sorted_unique;

verus! {

/// Largest number of nanoseconds a `std::time::Duration` can hold.
pub const MAX_DURATION_NANOS: u128 = 18_446_744_073_709_551_615_999_999_999;

/// Scale of the benchmark: number of transfers, gas limit of the batch,
/// gas limit of the block.
pub fn get_500k_scale_config_conservative() -> (r: (u64, u64, u64))
    ensures
        r == (10_000u64, 100_000_000_000u64, 1_000_000_000_000u64),
{
    (10_000, 100_000_000_000, 1_000_000_000_000)
}

pub open spec fn nanos_le(a: u128, b: u128) -> bool {
    a <= b
}

/// The median as the benchmark computes it: the middle element of the
/// sorted times, or for an even count the mean of the two middle ones,
/// rounded down and cut to 64 bits as `Duration::from_nanos` takes it.
pub open spec fn spec_median(times: Seq<u128>) -> u128 {
    let s = times.sort_by(|a: u128, b: u128| nanos_le(a, b));
    let mid = (times.len() / 2) as int;
    if times.len() % 2 == 0 {
        (((s[mid - 1] + s[mid]) / 2) as u64) as u128
    } else {
        s[mid]
    }
}

/// Sorts `v` ascending (`slice::sort`).
#[verifier::external_body]
fn sort_nanos(v: &mut Vec<u128>)
    ensures
        final(v)@.to_multiset() == old(v)@.to_multiset(),
        sorted_by(final(v)@, |a: u128, b: u128| nanos_le(a, b)),
{
    v.sort();
}

/// Median of a non-empty list of durations, in nanoseconds.
pub fn median(times: &[u128]) -> (r: u128)
    requires
        times.len() > 0,
        forall|i: int| 0 <= i < times.len() ==> #[trigger] times@[i] <= MAX_DURATION_NANOS,
    ensures
        r == spec_median(times@),
{
    let mut sorted_times = vstd::slice::slice_to_vec(times);
    sort_nanos(&mut sorted_times);
    let ghost leq = |a: u128, b: u128| nanos_le(a, b);
    proof {
        assert(total_ordering(leq));
        times@.lemma_sort_by_ensures(leq);
        lemma_sorted_unique(sorted_times@, times@.sort_by(leq), leq);
        broadcast use vstd::seq_lib::group_to_multiset_ensures;
        assert(sorted_times@.to_multiset().len() == sorted_times@.len());
        assert(times@.to_multiset().len() == times@.len());
        assert(sorted_times@.len() == times@.len());
        assert forall|i: int| 0 <= i < sorted_times@.len() implies #[trigger] sorted_times@[i] <= MAX_DURATION_NANOS by {
            let x = sorted_times@[i];
            assert(sorted_times@.contains(x));
            assert(times@.to_multiset().count(x) > 0);
            assert(times@.contains(x));
        }
    }
    let mid = sorted_times.len() / 2;
    if sorted_times.len() % 2 == 0 {
        let a = sorted_times[mid - 1];
        let b = sorted_times[mid];
        (((a + b) / 2) as u64) as u128
    } else {
        sorted_times[mid]
    }
}

} // verus!
