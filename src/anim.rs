//! Turning a character clip's samples into keyframe tracks.
use vstd::prelude::*;
use vstd::string::StringExecFns;

verus! {

/// The bone that a sample symbol animates: the symbol with `.mesh` after it.
pub fn clip_bone_name(symbol: &str) -> (r: String)
    ensures
        r@ == symbol@ + ".mesh"@,
{
    let mut r = String::from_str(symbol);
    r.append(".mesh");
    r
}

/// How many keyframes each track of a clip has: the larger of the sample
/// counts of its two sample sets.
pub fn clip_sample_count(one: usize, full: usize) -> (r: usize)
    ensures
        r == if one >= full {
            one
        } else {
            full
        },
{
    if one >= full {
        one
    } else {
        full
    }
}

/// For each of a track's `sample_count` keyframes, the stored value it
/// takes: the values repeat from the first once they run out. A track
/// with no values has no keyframes.
pub fn keyframe_sources(value_count: usize, sample_count: usize) -> (r: Vec<usize>)
    ensures
        value_count == 0 ==> r@.len() == 0,
        value_count > 0 ==> r@.len() == sample_count,
        value_count > 0 ==> forall|k: int|
            0 <= k < sample_count ==> #[trigger] r@[k] == k % (value_count as int),
{
    let mut r: Vec<usize> = Vec::new();
    if value_count == 0 {
        return r;
    }
    let mut k: usize = 0;
    while k < sample_count
        invariant
            value_count > 0,
            k <= sample_count,
            r@.len() == k,
            forall|j: int| 0 <= j < k ==> #[trigger] r@[j] == j % (value_count as int),
        decreases sample_count - k,
    {
        r.push(k % value_count);
        k = k + 1;
    }
    r
}

} // verus!
