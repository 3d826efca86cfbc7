use vstd::prelude::*;

verus! {

/// Thresholds that can bound bins: non-empty and strictly ascending.
pub open spec fn valid_bounds(upper: Seq<i64>) -> bool {
    &&& upper.len() > 0
    &&& forall|i: int, j: int| 0 <= i < j < upper.len() ==> upper[i] < upper[j]
}

/// The first bin at or after `i` whose upper bound lies strictly above `v`;
/// the last bin when there is none.
pub open spec fn bin_from(v: i64, upper: Seq<i64>, i: int) -> int
    decreases upper.len() - i,
{
    if i >= upper.len() - 1 {
        upper.len() - 1
    } else if v < upper[i] {
        i
    } else {
        bin_from(v, upper, i + 1)
    }
}

/// The bin that `v` falls into: the smallest `i` with `v < upper[i]`, so that a
/// value equal to a bound goes to the bin above it; values above every bound
/// go to the last bin.
pub open spec fn bin_of(v: i64, upper: Seq<i64>) -> int {
    bin_from(v, upper, 0)
}

/// A bin index `r` with every bound before it at most `v`, and `v` below the
/// bound of `r` unless `r` is the last bin, is the bin of `v`.
proof fn lemma_bin_from_unique(v: i64, upper: Seq<i64>, i: int, r: int)
    requires
        0 <= i <= r < upper.len(),
        forall|k: int| 0 <= k < r ==> upper[k] <= v,
        r == upper.len() - 1 || v < upper[r],
    ensures
        bin_from(v, upper, i) == r,
    decreases r - i,
{
    if i < r {
        lemma_bin_from_unique(v, upper, i + 1, r);
    }
}

proof fn lemma_bin_from_monotone(v1: i64, v2: i64, upper: Seq<i64>, i: int)
    requires
        v1 <= v2,
        0 <= i < upper.len(),
    ensures
        bin_from(v1, upper, i) <= bin_from(v2, upper, i),
        i <= bin_from(v1, upper, i) < upper.len(),
    decreases upper.len() - i,
{
    if i < upper.len() - 1 && !(v1 < upper[i]) {
        lemma_bin_from_monotone(v1, v2, upper, i + 1);
    }
    if i < upper.len() - 1 && !(v2 < upper[i]) && v1 < upper[i] {
        lemma_bin_from_monotone(v2, v2, upper, i + 1);
    }
}

/// Bin lookup is monotone: a larger value never falls into a lower bin.
pub proof fn lemma_bin_monotone(v1: i64, v2: i64, upper: Seq<i64>)
    requires
        valid_bounds(upper),
        v1 <= v2,
    ensures
        0 <= bin_of(v1, upper) <= bin_of(v2, upper) < upper.len(),
{
    lemma_bin_from_monotone(v1, v2, upper, 0);
    lemma_bin_from_monotone(v2, v2, upper, 0);
}

/// Finds, by binary search over the ascending thresholds, the bin that `value`
/// falls into. Values are order keys: integers ordered as the quantities they
/// stand for.
pub fn find_bin_binary(value: i64, upper_bounds: &[i64]) -> (r: usize)
    requires
        valid_bounds(upper_bounds@),
    ensures
        r == bin_of(value, upper_bounds@),
        r < upper_bounds@.len(),
{
    let mut lo: usize = 0;
    let mut hi: usize = upper_bounds.len() - 1;
    while lo < hi
        invariant
            valid_bounds(upper_bounds@),
            lo <= hi < upper_bounds@.len(),
            forall|k: int| 0 <= k < lo ==> upper_bounds@[k] <= value,
            hi == upper_bounds@.len() - 1 || value < upper_bounds@[hi as int],
        decreases hi - lo,
    {
        let mid: usize = lo + (hi - lo) / 2;
        if upper_bounds[mid] <= value {
            lo = mid + 1;
        } else {
            hi = mid;
        }
    }
    proof {
        lemma_bin_from_unique(value, upper_bounds@, 0, lo as int);
    }
    lo
}

} // verus!
