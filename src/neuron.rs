use vstd::prelude::*;

verus! {

/// How many points form the neighbourhood of a point when its tangent is
/// estimated: the point itself and its nearest others. A neuron needs at
/// least this many points.
pub const N_NEIGHBORS: usize = 5;

/// Why a neuron could not be built.
#[derive(Debug, Clone, Copy, PartialEq, Eq, Structural)]
pub enum NeuronError {
    /// Fewer points than a neighbourhood holds.
    TooFewPoints,
    /// No finite principal axis was found for some neighbourhood.
    TangentEstimationFailed,
}

/// Checks that a neuron of `n_points` points is large enough to have a
/// tangent estimated at each point.
pub fn check_point_count(n_points: usize) -> (r: Result<(), NeuronError>)
    ensures
        r is Ok <==> n_points >= N_NEIGHBORS,
        r is Err ==> r->Err_0 == NeuronError::TooFewPoints,
{
    if n_points < N_NEIGHBORS {
        Err(NeuronError::TooFewPoints)
    } else {
        Ok(())
    }
}

/// Turns the outcomes of tangent estimation, one per point, into the tangents,
/// or into a failure when any estimation failed.
pub fn collect_tangents<T: Copy>(estimates: &Vec<Option<T>>) -> (r: Result<Vec<T>, NeuronError>)
    ensures
        r is Ok <==> forall|i: int| 0 <= i < estimates@.len() ==> estimates@[i] is Some,
        r is Err ==> r->Err_0 == NeuronError::TangentEstimationFailed,
        r is Ok ==> r->Ok_0@.len() == estimates@.len() && forall|i: int|
            0 <= i < estimates@.len() ==> Some(#[trigger] r->Ok_0@[i]) == estimates@[i],
{
    let mut out: Vec<T> = Vec::new();
    let mut i: usize = 0;
    while i < estimates.len()
        invariant
            i <= estimates@.len(),
            out@.len() == i,
            forall|k: int| 0 <= k < i ==> Some(#[trigger] out@[k]) == estimates@[k],
        decreases estimates@.len() - i,
    {
        match estimates[i] {
            Some(t) => out.push(t),
            None => {
                return Err(NeuronError::TangentEstimationFailed);
            },
        }
        i = i + 1;
    }
    proof {
        assert forall|k: int| 0 <= k < estimates@.len() implies estimates@[k] is Some by {
            assert(Some(out@[k]) == estimates@[k]);
        }
    }
    Ok(out)
}

/// Some item carries index `k`.
pub open spec fn carries_index<P>(items: Seq<(usize, P)>, k: int) -> bool {
    exists|i: int| 0 <= i < items.len() && items[i].0 == k
}

/// The items carry every index `0..n` exactly once, where `n` is their number.
pub open spec fn is_index_order<P>(items: Seq<(usize, P)>) -> bool {
    &&& forall|i: int| 0 <= i < items.len() ==> (#[trigger] items[i]).0 < items.len()
    &&& forall|i: int, j: int| 0 <= i < j < items.len() ==> items[i].0 != items[j].0
    &&& forall|k: int| 0 <= k < items.len() ==> #[trigger] carries_index(items, k)
}

/// Puts points that carry their position in the input back into that order.
/// Fails when the positions are not exactly `0..n`.
pub fn points_in_index_order<P: Copy>(items: &Vec<(usize, P)>) -> (r: Option<Vec<P>>)
    ensures
        r is Some <==> is_index_order(items@),
        r is Some ==> r->Some_0@.len() == items@.len() && forall|i: int|
            0 <= i < items@.len() ==> r->Some_0@[(#[trigger] items@[i]).0 as int] == items@[i].1,
{
    let n = items.len();
    let mut slots: Vec<Option<P>> = Vec::new();
    let mut k: usize = 0;
    while k < n
        invariant
            k <= n,
            slots@.len() == k,
            forall|j: int| 0 <= j < k ==> slots@[j] is None,
        decreases n - k,
    {
        slots.push(None);
        k = k + 1;
    }
    let mut i: usize = 0;
    while i < n
        invariant
            n == items@.len(),
            i <= n,
            slots@.len() == n,
            forall|j: int| 0 <= j < i ==> (#[trigger] items@[j]).0 < n,
            forall|j1: int, j2: int| 0 <= j1 < j2 < i ==> items@[j1].0 != items@[j2].0,
            forall|j: int| 0 <= j < i ==> slots@[(#[trigger] items@[j]).0 as int] == Some(items@[j].1),
            forall|s: int|
                0 <= s < n && (#[trigger] slots@[s]) is Some ==> exists|j: int|
                    0 <= j < i && items@[j].0 == s,
        decreases n - i,
    {
        let (pos, p) = items[i];
        if pos >= n {
            return None;
        }
        if slots[pos].is_some() {
            proof {
                let s = pos as int;
                assert(slots@[s] is Some);
                let j = choose|j: int| 0 <= j < i && items@[j].0 == s;
                assert(items@[j].0 == items@[i as int].0);
            }
            return None;
        }
        let ghost old_slots = slots@;
        slots.set(pos, Some(p));
        proof {
            assert forall|j: int| 0 <= j < i + 1 implies slots@[(#[trigger] items@[j]).0 as int] == Some(
                items@[j].1,
            ) by {
                if j < i {
                    assert(old_slots[items@[j].0 as int] is Some);
                }
            }
            assert forall|s: int|
                0 <= s < n && (#[trigger] slots@[s]) is Some implies exists|j: int|
                0 <= j < i + 1 && items@[j].0 == s by {
                if s == pos {
                    assert(items@[i as int].0 == s);
                } else {
                    assert(old_slots[s] is Some);
                }
            }
        }
        i = i + 1;
    }
    proof {
        assert forall|s: int| 0 <= s < n && (#[trigger] slots@[s]) is Some implies carries_index(
            items@,
            s,
        ) by {
            let j = choose|j: int| 0 <= j < n && items@[j].0 == s;
        }
    }
    let mut out: Vec<P> = Vec::new();
    let mut k: usize = 0;
    while k < n
        invariant
            n == items@.len(),
            k <= n,
            slots@.len() == n,
            out@.len() == k,
            forall|s: int| 0 <= s < k ==> Some(#[trigger] out@[s]) == slots@[s],
            forall|j: int| 0 <= j < n ==> (#[trigger] items@[j]).0 < n,
            forall|j: int| 0 <= j < n ==> slots@[(#[trigger] items@[j]).0 as int] == Some(items@[j].1),
            forall|s: int| 0 <= s < k ==> #[trigger] carries_index(items@, s),
            forall|s: int| 0 <= s < n && (#[trigger] slots@[s]) is Some ==> carries_index(items@, s),
        decreases n - k,
    {
        match slots[k] {
            Some(p) => {
                out.push(p);
            },
            None => {
                proof {
                    assert forall|j: int| 0 <= j < n implies items@[j].0 != k by {
                        assert(slots@[items@[j].0 as int] is Some);
                    }
                    assert(!carries_index(items@, k as int));
                }
                return None;
            },
        }
        k = k + 1;
    }
    Some(out)
}

} // verus!
