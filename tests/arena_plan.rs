use nblast::arena::{plan_batch, BatchEntry, NblastArena, PairSource};
use nblast::neuron::{check_point_count, collect_tangents, points_in_index_order, NeuronError};

fn arena_of(n: usize) -> NblastArena<String, f64> {
    let mut arena = NblastArena::new();
    for i in 0..n {
        let idx = arena.add_neuron(format!("n{}", i), 10.0 * (i as f64 + 1.0));
        assert_eq!(idx, i);
    }
    arena
}

fn find(plan: &[BatchEntry], q: usize, t: usize) -> Option<PairSource> {
    plan.iter().find(|e| e.query == q && e.target == t).map(|e| e.source)
}

#[test]
fn arena_indices_and_self_hits() {
    let arena = arena_of(3);
    assert_eq!(arena.len(), 3);
    assert!(!arena.is_empty());
    assert_eq!(arena.self_hit(0), Some(10.0));
    assert_eq!(arena.self_hit(2), Some(30.0));
    assert_eq!(arena.self_hit(3), None);
    assert_eq!(arena.neuron(1).map(|s| s.as_str()), Some("n1"));
    assert!(arena.neuron(5).is_none());
}

#[test]
fn empty_arena() {
    let arena: NblastArena<String, f64> = NblastArena::new();
    assert!(arena.is_empty());
    assert_eq!(arena.len(), 0);
    assert_eq!(arena.self_hit(0), None);
    assert!(arena.all_v_all(true).is_empty());
}

#[test]
fn batch_of_two_neurons_has_four_entries() {
    let arena = arena_of(2);
    let out = arena.queries_targets(&[0, 1], &[1, 0], false);
    assert_eq!(out.len(), 4);
    let out = arena.queries_targets(&[0, 1], &[1, 0], true);
    assert_eq!(out.len(), 4);
}

#[test]
fn batch_sources() {
    let arena = arena_of(2);
    let out = arena.queries_targets(&[0, 1], &[1, 0], true);
    assert_eq!(find(&out, 0, 0), Some(PairSource::SelfHit));
    assert_eq!(find(&out, 1, 1), Some(PairSource::SelfHit));
    assert_eq!(find(&out, 0, 1), Some(PairSource::Compute));
    assert_eq!(find(&out, 1, 0), Some(PairSource::Mirror));
    let out = arena.queries_targets(&[0, 1], &[1, 0], false);
    assert_eq!(find(&out, 0, 1), Some(PairSource::Compute));
    assert_eq!(find(&out, 1, 0), Some(PairSource::Compute));
}

#[test]
fn batch_skips_out_of_range() {
    let arena = arena_of(2);
    let out = arena.queries_targets(&[0, 7], &[1, 0], false);
    assert_eq!(out.len(), 2);
    assert!(out.iter().all(|e| e.query == 0));
    assert!(out.len() < 2 * 2);
}

#[test]
fn batch_repeats_collapse() {
    let out = plan_batch(&[0, 0, 1], &[1, 1], 2, false);
    assert_eq!(out.len(), 2);
    assert_eq!(find(&out, 0, 1), Some(PairSource::Compute));
    assert_eq!(find(&out, 1, 1), Some(PairSource::SelfHit));
}

#[test]
fn all_v_all_covers_every_pair() {
    let arena = arena_of(4);
    let out = arena.all_v_all(true);
    assert_eq!(out.len(), 16);
    for q in 0..4 {
        for t in 0..4 {
            let s = find(&out, q, t).unwrap();
            if q == t {
                assert_eq!(s, PairSource::SelfHit);
            } else if q < t {
                assert_eq!(s, PairSource::Compute);
            } else {
                assert_eq!(s, PairSource::Mirror);
            }
        }
    }
    let out = arena.all_v_all(false);
    assert_eq!(out.iter().filter(|e| e.source == PairSource::Compute).count(), 12);
}

#[test]
fn point_count_check() {
    assert_eq!(check_point_count(4), Err(NeuronError::TooFewPoints));
    assert_eq!(check_point_count(0), Err(NeuronError::TooFewPoints));
    assert_eq!(check_point_count(5), Ok(()));
    assert_eq!(check_point_count(10), Ok(()));
}

#[test]
fn tangents_collected_or_failed() {
    let ok = collect_tangents(&vec![Some(1u8), Some(2), Some(3)]);
    assert_eq!(ok, Ok(vec![1, 2, 3]));
    let bad = collect_tangents(&vec![Some(1u8), None, Some(3)]);
    assert_eq!(bad, Err(NeuronError::TangentEstimationFailed));
}

#[test]
fn points_back_in_order() {
    let items = vec![(2usize, [2.0, 0.0, 0.0]), (0, [0.0, 0.0, 0.0]), (1, [1.0, 0.0, 0.0])];
    let pts = points_in_index_order(&items).unwrap();
    assert_eq!(pts, vec![[0.0, 0.0, 0.0], [1.0, 0.0, 0.0], [2.0, 0.0, 0.0]]);
    assert!(points_in_index_order(&vec![(0usize, 1u8), (0, 2)]).is_none());
    assert!(points_in_index_order(&vec![(0usize, 1u8), (2, 2)]).is_none());
    assert_eq!(points_in_index_order::<u8>(&vec![]), Some(vec![]));
}
