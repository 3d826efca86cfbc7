use vstd::prelude::*;

verus! {

/// How the score of one (query, target) pair of a batch is obtained.
#[derive(Debug, Clone, Copy, PartialEq, Eq, Structural)]
pub enum PairSource {
    /// Query and target are the same neuron: the score is its self-hit
    /// (or one, when normalized), with no scoring needed.
    SelfHit,
    /// The symmetrized score of the reversed pair, planned earlier in the same
    /// batch, is reused.
    Mirror,
    /// The pair is scored.
    Compute,
}

/// One pair of a batch, with how its score is obtained.
#[derive(Debug, Clone, Copy, PartialEq, Eq, Structural)]
pub struct BatchEntry {
    pub query: usize,
    pub target: usize,
    pub source: PairSource,
}

/// `q` is listed among the queries, `t` among the targets, and both name
/// neurons of an arena of `n` neurons.
pub open spec fn pair_in_batch(qs: Seq<usize>, ts: Seq<usize>, n: nat, q: usize, t: usize) -> bool {
    &&& qs.contains(q)
    &&& ts.contains(t)
    &&& q < n
    &&& t < n
}

/// Every listed index names a neuron of an arena of `n` neurons.
pub open spec fn all_in_range(qs: Seq<usize>, ts: Seq<usize>, n: nat) -> bool {
    &&& forall|a: int| 0 <= a < qs.len() ==> qs[a] < n
    &&& forall|b: int| 0 <= b < ts.len() ==> ts[b] < n
}

/// Entry `i` of the plan is for the pair `(q, t)`.
pub open spec fn is_pair(plan: Seq<BatchEntry>, i: int, q: usize, t: usize) -> bool {
    plan[i].query == q && plan[i].target == t
}

/// What a batch plan over queries `qs` and targets `ts` in an arena of `n`
/// neurons is: one entry for each distinct pair in range and nothing else; a
/// pair of a neuron with itself is its self-hit; under symmetric scoring a pair
/// reuses the reversed pair when that came earlier; every other pair is scored.
pub open spec fn valid_plan(
    qs: Seq<usize>,
    ts: Seq<usize>,
    n: nat,
    symmetric: bool,
    plan: Seq<BatchEntry>,
) -> bool {
    &&& forall|i: int, j: int|
        0 <= i < j < plan.len() ==> !is_pair(plan, j, plan[i].query, plan[i].target)
    &&& forall|i: int|
        0 <= i < plan.len() ==> pair_in_batch(qs, ts, n, #[trigger] plan[i].query, plan[i].target)
    &&& forall|q: usize, t: usize|
        #[trigger] pair_in_batch(qs, ts, n, q, t) ==> exists|i: int|
            0 <= i < plan.len() && is_pair(plan, i, q, t)
    &&& forall|i: int|
        0 <= i < plan.len() ==> ((#[trigger] plan[i].source == PairSource::SelfHit) <==> plan[i].query
            == plan[i].target)
    &&& forall|i: int|
        0 <= i < plan.len() ==> ((#[trigger] plan[i].source == PairSource::Mirror) <==> {
            &&& symmetric
            &&& plan[i].query != plan[i].target
            &&& exists|j: int| 0 <= j < i && is_pair(plan, j, plan[i].target, plan[i].query)
        })
}

/// In a symmetric batch, of a pair and its reverse only the first is scored:
/// the later one takes the very same value, so the two scores are equal.
pub proof fn lemma_symmetric_batch_reuses(
    qs: Seq<usize>,
    ts: Seq<usize>,
    n: nat,
    plan: Seq<BatchEntry>,
    i: int,
    j: int,
)
    requires
        valid_plan(qs, ts, n, true, plan),
        0 <= i < j < plan.len(),
        plan[i].query != plan[i].target,
        is_pair(plan, j, plan[i].target, plan[i].query),
    ensures
        plan[j].source == PairSource::Mirror,
        plan[i].source != PairSource::Mirror ==> plan[i].source == PairSource::Compute,
{
    assert(is_pair(plan, i, plan[j].target, plan[j].query));
    assert(plan[j].source == PairSource::Mirror);
}

/// For each index below `n`, the position of its first occurrence in `idxs`,
/// if it occurs.
pub open spec fn first_positions_ok(idxs: Seq<usize>, n: nat, first: Seq<Option<usize>>) -> bool {
    &&& first.len() == n
    &&& forall|v: int|
        0 <= v < n ==> match #[trigger] first[v] {
            Some(a) => a < idxs.len() && idxs[a as int] == v && forall|k: int|
                0 <= k < a ==> idxs[k] != v,
            None => forall|k: int| 0 <= k < idxs.len() ==> idxs[k] != v,
        }
}

fn first_positions(idxs: &[usize], n: usize) -> (r: Vec<Option<usize>>)
    ensures
        first_positions_ok(idxs@, n as nat, r@),
{
    let mut first: Vec<Option<usize>> = Vec::new();
    let mut v: usize = 0;
    while v < n
        invariant
            v <= n,
            first@.len() == v,
            forall|k: int| 0 <= k < v ==> first@[k] is None,
        decreases n - v,
    {
        first.push(None);
        v = v + 1;
    }
    let mut a: usize = 0;
    while a < idxs.len()
        invariant
            a <= idxs@.len(),
            first@.len() == n,
            forall|w: int|
                0 <= w < n ==> match #[trigger] first@[w] {
                    Some(p) => p < a && idxs@[p as int] == w && forall|k: int|
                        0 <= k < p ==> idxs@[k] != w,
                    None => forall|k: int| 0 <= k < a ==> idxs@[k] != w,
                },
        decreases idxs@.len() - a,
    {
        let x = idxs[a];
        if x < n {
            if first[x].is_none() {
                first.set(x, Some(a));
            }
        }
        a = a + 1;
    }
    first
}

/// `(a, b)` comes before `(qi, ti)` in the order in which pairs are visited.
pub open spec fn visited_before(a: int, b: int, qi: int, ti: int) -> bool {
    a < qi || (a == qi && b < ti)
}

/// Plans the scoring of every (query, target) pair of a batch over an arena of
/// `n` neurons.
///
/// Pairs out of range are skipped, as are repeats of a pair. The plan has at
/// most `|qs| * |ts|` entries, exactly that many when no index repeats and all
/// are in range, and fewer when both lists are non-empty and some index is out
/// of range.
pub fn plan_batch(qs: &[usize], ts: &[usize], n: usize, symmetric: bool) -> (r: Vec<BatchEntry>)
    ensures
        valid_plan(qs@, ts@, n as nat, symmetric, r@),
        r@.len() <= qs@.len() * ts@.len(),
        qs@.no_duplicates() && ts@.no_duplicates() && all_in_range(qs@, ts@, n as nat) ==> r@.len()
            == qs@.len() * ts@.len(),
        qs@.len() > 0 && ts@.len() > 0 && r@.len() == qs@.len() * ts@.len() ==> all_in_range(
            qs@,
            ts@,
            n as nat,
        ),
{
    let fq = first_positions(qs, n);
    let ft = first_positions(ts, n);
    let mut plan: Vec<BatchEntry> = Vec::new();
    let ghost mut skipped: int = 0;
    let nq = qs.len();
    let nt = ts.len();
    let mut qi: usize = 0;
    while qi < nq
        invariant
            nq == qs@.len(),
            nt == ts@.len(),
            qi <= nq,
            first_positions_ok(qs@, n as nat, fq@),
            first_positions_ok(ts@, n as nat, ft@),
            forall|i: int|
                0 <= i < plan@.len() ==> {
                    let e = #[trigger] plan@[i];
                    &&& e.query < n
                    &&& e.target < n
                    &&& fq@[e.query as int] is Some
                    &&& ft@[e.target as int] is Some
                    &&& visited_before(
                        fq@[e.query as int]->Some_0 as int,
                        ft@[e.target as int]->Some_0 as int,
                        qi as int,
                        0,
                    )
                },
            forall|a: int, b: int| #![trigger qs@[a], ts@[b]]
                0 <= a < nq && 0 <= b < nt && visited_before(a, b, qi as int, 0) && qs@[a] < n
                    && ts@[b] < n ==> exists|i: int|
                    0 <= i < plan@.len() && is_pair(plan@, i, qs@[a], ts@[b]),
            forall|i: int|
                0 <= i < plan@.len() ==> ((#[trigger] plan@[i].source == PairSource::SelfHit)
                    <==> plan@[i].query == plan@[i].target),
            forall|i: int|
                0 <= i < plan@.len() ==> ((#[trigger] plan@[i].source == PairSource::Mirror) <==> {
                    &&& symmetric
                    &&& plan@[i].query != plan@[i].target
                    &&& exists|j: int| 0 <= j < i && is_pair(plan@, j, plan@[i].target, plan@[i].query)
                }),
            forall|i: int, j: int|
                0 <= i < j < plan@.len() ==> !is_pair(plan@, j, plan@[i].query, plan@[i].target),
            skipped >= 0,
            plan@.len() + skipped == qi * nt,
            skipped == 0 && nt > 0 ==> forall|a: int| 0 <= a < qi ==> qs@[a] < n,
            skipped == 0 && qi > 0 ==> forall|b: int| 0 <= b < nt ==> ts@[b] < n,
            qs@.no_duplicates() && ts@.no_duplicates() && all_in_range(qs@, ts@, n as nat)
                ==> skipped == 0,
        decreases nq - qi,
    {
        let mut ti: usize = 0;
        while ti < nt
            invariant
                nq == qs@.len(),
                nt == ts@.len(),
                qi < nq,
                ti <= nt,
                first_positions_ok(qs@, n as nat, fq@),
                first_positions_ok(ts@, n as nat, ft@),
                forall|i: int|
                    0 <= i < plan@.len() ==> {
                        let e = #[trigger] plan@[i];
                        &&& e.query < n
                        &&& e.target < n
                        &&& fq@[e.query as int] is Some
                        &&& ft@[e.target as int] is Some
                        &&& visited_before(
                            fq@[e.query as int]->Some_0 as int,
                            ft@[e.target as int]->Some_0 as int,
                            qi as int,
                            ti as int,
                        )
                    },
                forall|a: int, b: int| #![trigger qs@[a], ts@[b]]
                    0 <= a < nq && 0 <= b < nt && visited_before(a, b, qi as int, ti as int)
                        && qs@[a] < n && ts@[b] < n ==> exists|i: int|
                        0 <= i < plan@.len() && is_pair(plan@, i, qs@[a], ts@[b]),
                forall|i: int|
                    0 <= i < plan@.len() ==> ((#[trigger] plan@[i].source == PairSource::SelfHit)
                        <==> plan@[i].query == plan@[i].target),
                forall|i: int|
                    0 <= i < plan@.len() ==> ((#[trigger] plan@[i].source == PairSource::Mirror)
                        <==> {
                        &&& symmetric
                        &&& plan@[i].query != plan@[i].target
                        &&& exists|j: int|
                            0 <= j < i && is_pair(plan@, j, plan@[i].target, plan@[i].query)
                    }),
                forall|i: int, j: int|
                    0 <= i < j < plan@.len() ==> !is_pair(plan@, j, plan@[i].query, plan@[i].target),
                skipped >= 0,
                plan@.len() + skipped == qi * nt + ti,
                skipped == 0 && nt > 0 ==> forall|a: int| 0 <= a < qi ==> qs@[a] < n,
                skipped == 0 && ti > 0 ==> qs@[qi as int] < n,
                skipped == 0 && qi > 0 ==> forall|b: int| 0 <= b < nt ==> ts@[b] < n,
                skipped == 0 ==> forall|b: int| 0 <= b < ti ==> ts@[b] < n,
                qs@.no_duplicates() && ts@.no_duplicates() && all_in_range(qs@, ts@, n as nat)
                    ==> skipped == 0,
            decreases nt - ti,
        {
            let q = qs[qi];
            let t = ts[ti];
            let ghost before = plan@;
            if q < n && t < n && fq[q] == Some(qi) && ft[t] == Some(ti) {
                let mut reversed_earlier = false;
                if symmetric && q != t {
                    match (fq[t], ft[q]) {
                        (Some(a), Some(b)) => {
                            reversed_earlier = a < qi || (a == qi && b < ti);
                        },
                        _ => {},
                    }
                }
                let source = if q == t {
                    PairSource::SelfHit
                } else if reversed_earlier {
                    PairSource::Mirror
                } else {
                    PairSource::Compute
                };
                plan.push(BatchEntry { query: q, target: t, source });
                proof {
                    assert(forall|k: int| 0 <= k < before.len() ==> plan@[k] == before[k]);
                    assert forall|i: int, j: int| 0 <= i < j < plan@.len() implies !is_pair(
                        plan@,
                        j,
                        plan@[i].query,
                        plan@[i].target,
                    ) by {
                        if j < before.len() {
                            assert(!is_pair(before, j, before[i].query, before[i].target));
                        } else {
                            assert(!is_pair(before, i, q, t));
                        }
                    }
                    if symmetric && q != t {
                        if reversed_earlier {
                            let a = fq@[t as int]->Some_0 as int;
                            let b = ft@[q as int]->Some_0 as int;
                            assert(qs@[a] == t && ts@[b] == q);
                            let j = choose|j: int|
                                0 <= j < before.len() && is_pair(before, j, qs@[a], ts@[b]);
                            assert(is_pair(plan@, j, t, q));
                        }
                        if exists|j: int| 0 <= j < before.len() && is_pair(before, j, t, q) {
                            let j = choose|j: int| 0 <= j < before.len() && is_pair(before, j, t, q);
                            let e = before[j];
                            assert(reversed_earlier);
                        }
                    }
                    assert forall|i: int| 0 <= i < before.len() implies ((exists|j: int|
                        0 <= j < i && is_pair(plan@, j, (#[trigger] plan@[i]).target, plan@[i].query)) <==> (exists|
                        j: int,
                    |
                        0 <= j < i && is_pair(before, j, before[i].target, before[i].query))) by {
                        if exists|j: int|
                            0 <= j < i && is_pair(before, j, before[i].target, before[i].query) {
                            let j = choose|j: int|
                                0 <= j < i && is_pair(before, j, before[i].target, before[i].query);
                            assert(is_pair(plan@, j, plan@[i].target, plan@[i].query));
                        }
                        if exists|j: int|
                            0 <= j < i && is_pair(plan@, j, plan@[i].target, plan@[i].query) {
                            let j = choose|j: int|
                                0 <= j < i && is_pair(plan@, j, plan@[i].target, plan@[i].query);
                            assert(is_pair(before, j, before[i].target, before[i].query));
                        }
                    }
                    assert forall|i: int| 0 <= i < before.len() implies !is_pair(
                        before,
                        i,
                        q,
                        t,
                    ) by {
                        let e = before[i];
                    }
                    assert forall|a: int, b: int| #![trigger qs@[a], ts@[b]]
                        0 <= a < nq && 0 <= b < nt && visited_before(a, b, qi as int, ti + 1)
                            && qs@[a] < n && ts@[b] < n implies exists|i: int|
                        0 <= i < plan@.len() && is_pair(plan@, i, qs@[a], ts@[b]) by {
                        if a == qi && b == ti {
                            assert(is_pair(plan@, before.len() as int, qs@[a], ts@[b]));
                        } else {
                            assert(visited_before(a, b, qi as int, ti as int));
                            let i = choose|i: int|
                                0 <= i < before.len() && is_pair(before, i, qs@[a], ts@[b]);
                            assert(is_pair(plan@, i, qs@[a], ts@[b]));
                        }
                    }
                }
            } else {
                proof {
                    if q < n && t < n {
                        let a0 = fq@[q as int]->Some_0 as int;
                        let b0 = ft@[t as int]->Some_0 as int;
                        assert(visited_before(a0, b0, qi as int, ti as int));
                        assert(qs@[a0] == q && ts@[b0] == t);
                    }
                    if qs@.no_duplicates() && ts@.no_duplicates() && all_in_range(
                        qs@,
                        ts@,
                        n as nat,
                    ) {
                        assert(fq@[q as int] == Some(qi));
                        assert(ft@[t as int] == Some(ti));
                    }
                    skipped = skipped + 1;
                }
            }
            ti = ti + 1;
        }
        proof {
            assert(qi * nt + nt == (qi + 1) * nt) by (nonlinear_arith);
            assert forall|a: int, b: int| #![trigger qs@[a], ts@[b]]
                0 <= a < nq && 0 <= b < nt && visited_before(a, b, qi + 1, 0) implies visited_before(
                a,
                b,
                qi as int,
                nt as int,
            ) by {}
        }
        qi = qi + 1;
    }
    proof {
        if qs@.len() > 0 && ts@.len() > 0 && plan@.len() == qs@.len() * ts@.len() {
        }
        assert forall|q: usize, t: usize| #[trigger]
            pair_in_batch(qs@, ts@, n as nat, q, t) implies exists|i: int|
            0 <= i < plan@.len() && is_pair(plan@, i, q, t) by {
            let a = qs@.index_of(q);
            let b = ts@.index_of(t);
            assert(visited_before(a, b, nq as int, 0));
        }
        assert forall|i: int| 0 <= i < plan@.len() implies pair_in_batch(
            qs@,
            ts@,
            n as nat,
            #[trigger] plan@[i].query,
            plan@[i].target,
        ) by {
            let e = plan@[i];
            assert(qs@[fq@[e.query as int]->Some_0 as int] == e.query);
            assert(ts@[ft@[e.target as int]->Some_0 as int] == e.target);
        }
    }
    plan
}

/// The indices `0..n`, in order.
pub open spec fn index_range(n: nat) -> Seq<usize> {
    Seq::new(n, |i: int| i as usize)
}

/// An append-only pool of neurons, each stored with its self-hit score (the
/// score it reaches against itself), which is fixed when it is added.
///
/// Neurons are identified by their position: indices start at zero and each
/// addition takes the next one.
pub struct NblastArena<N, S> {
    neurons_scores: Vec<(N, S)>,
}

impl<N, S: Copy> NblastArena<N, S> {
    /// The stored neurons with their self-hits, in order of addition.
    pub closed spec fn entries(&self) -> Seq<(N, S)> {
        self.neurons_scores@
    }

    /// An empty arena.
    pub fn new() -> (r: Self)
        ensures
            r.entries() == Seq::<(N, S)>::empty(),
    {
        NblastArena { neurons_scores: Vec::new() }
    }

    fn next_id(&self) -> (r: usize)
        ensures
            r == self.entries().len(),
    {
        self.neurons_scores.len()
    }

    /// Adds a neuron with its self-hit and returns the index it is known by.
    pub fn add_neuron(&mut self, neuron: N, self_hit: S) -> (r: usize)
        ensures
            r == old(self).entries().len(),
            final(self).entries() == old(self).entries().push((neuron, self_hit)),
    {
        let idx = self.next_id();
        self.neurons_scores.push((neuron, self_hit));
        idx
    }

    /// The number of neurons.
    pub fn len(&self) -> (r: usize)
        ensures
            r == self.entries().len(),
    {
        self.neurons_scores.len()
    }

    /// Whether the arena holds no neuron.
    pub fn is_empty(&self) -> (r: bool)
        ensures
            r == (self.entries().len() == 0),
    {
        self.neurons_scores.len() == 0
    }

    /// The self-hit stored with neuron `idx`; none when `idx` is out of range.
    pub fn self_hit(&self, idx: usize) -> (r: Option<S>)
        ensures
            r == (if idx < self.entries().len() {
                Some(self.entries()[idx as int].1)
            } else {
                None
            }),
    {
        if idx < self.neurons_scores.len() {
            Some(self.neurons_scores[idx].1)
        } else {
            None
        }
    }

    /// The neuron stored at `idx`; none when `idx` is out of range.
    pub fn neuron(&self, idx: usize) -> (r: Option<&N>)
        ensures
            r is Some <==> idx < self.entries().len(),
            r is Some ==> *r->Some_0 == self.entries()[idx as int].0,
    {
        if idx < self.neurons_scores.len() {
            Some(&self.neurons_scores[idx].0)
        } else {
            None
        }
    }

    /// Plans the scores of every (query, target) pair of the given indices:
    /// one entry for each distinct pair of neurons in the arena; pairs with an
    /// index out of range are left out. There are at most `|queries| * |targets|`
    /// entries, exactly that many when no index repeats and all are in range,
    /// and fewer when both lists are non-empty and some index is out of range.
    pub fn queries_targets(&self, query_idxs: &[usize], target_idxs: &[usize], symmetric: bool) -> (r:
        Vec<BatchEntry>)
        ensures
            valid_plan(query_idxs@, target_idxs@, self.entries().len(), symmetric, r@),
            r@.len() <= query_idxs@.len() * target_idxs@.len(),
            query_idxs@.no_duplicates() && target_idxs@.no_duplicates() && all_in_range(
                query_idxs@,
                target_idxs@,
                self.entries().len(),
            ) ==> r@.len() == query_idxs@.len() * target_idxs@.len(),
            query_idxs@.len() > 0 && target_idxs@.len() > 0 && r@.len() == query_idxs@.len()
                * target_idxs@.len() ==> all_in_range(query_idxs@, target_idxs@, self.entries().len()),
    {
        plan_batch(query_idxs, target_idxs, self.neurons_scores.len(), symmetric)
    }

    /// Plans the scores of every ordered pair of neurons in the arena.
    pub fn all_v_all(&self, symmetric: bool) -> (r: Vec<BatchEntry>)
        ensures
            valid_plan(
                index_range(self.entries().len()),
                index_range(self.entries().len()),
                self.entries().len(),
                symmetric,
                r@,
            ),
            r@.len() == self.entries().len() * self.entries().len(),
    {
        let n = self.neurons_scores.len();
        let mut idxs: Vec<usize> = Vec::new();
        let mut i: usize = 0;
        while i < n
            invariant
                i <= n,
                idxs@ == index_range(i as nat),
            decreases n - i,
        {
            idxs.push(i);
            i = i + 1;
            assert(idxs@ =~= index_range(i as nat));
        }
        let r = plan_batch(idxs.as_slice(), idxs.as_slice(), n, symmetric);
        proof {
            assert(idxs@.no_duplicates());
            assert(all_in_range(idxs@, idxs@, n as nat));
        }
        r
    }
}

} // verus!
