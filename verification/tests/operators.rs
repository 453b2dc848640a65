use precomputation::combinatorics::compute_combinations;
use precomputation::coordinator::{
    CoordinatorAction, CoordinatorEvent, CoordinatorPhase, ImplementationKind, PipelineCoordinator,
};
use precomputation::cross_join::IdCrossJoin;
use precomputation::difference::PlacementDifference;
use precomputation::placement::{is_dominated, lt_slice, Placement};
use precomputation::stages::{
    distribute_ids, enumerate_data_centers, AggregationStage, DominanceDetectionStage,
    PlacementFilterStage,
};
use precomputation::workload::Workload;

fn place(d_0: u16, d_1: u16, latency: Vec<(u64, u64)>) -> Placement {
    Placement { d_0, d_1, latency }
}

#[test]
fn placement_equality_ignores_latency() {
    // two placements naming the same ordered pair are equal whatever their
    // latency profiles hold
    let a = place(2, 5, vec![(1, 1)]);
    let b = place(2, 5, vec![(9, 9), (4, 4)]);
    assert!(a == b);
    assert!(a.has_same_dcs(&b));
    // the pair is ordered: swapping the centers makes another placement
    let c = place(5, 2, vec![(1, 1)]);
    assert!(a != c);
    assert!(!a.has_same_dcs(&c));
}

#[test]
fn dominance_is_strict_and_elementwise() {
    assert!(lt_slice(&[(1, 1), (2, 2)], &[(3, 3), (4, 4)]));
    // a single tied position defeats the relation
    assert!(!lt_slice(&[(1, 1), (2, 2)], &[(3, 3), (2, 4)]));
    assert!(!lt_slice(&[(1, 1)], &[(1, 2)]));
    // empty profiles dominate vacuously
    assert!(lt_slice(&[], &[]));
    let p = place(0, 1, vec![(5, 4)]);
    let q = place(0, 2, vec![(3, 2)]);
    assert!(is_dominated(&p, &q));
    assert!(!is_dominated(&q, &p));
    // a placement never dominates itself on a non-empty profile
    assert!(!is_dominated(&p, &p));
}

#[test]
fn cross_join_pairs_exactly_once() {
    let mut join = IdCrossJoin::new();
    // nothing to pair while the probe side is empty
    assert_eq!(join.push_build(1), vec![]);
    assert_eq!(join.push_build(2), vec![]);
    // a probe arrival meets the whole accumulated build side
    assert_eq!(join.push_probe(7), vec![(1, 7), (2, 7)]);
    // a late build arrival still meets the earlier probe element
    assert_eq!(join.push_build(3), vec![(3, 7)]);
    // duplicates are absorbed: nothing is paired twice
    assert_eq!(join.push_build(1), vec![]);
    assert_eq!(join.push_probe(7), vec![]);
    // a second probe element meets all three build elements
    assert_eq!(join.push_probe(8), vec![(1, 8), (2, 8), (3, 8)]);
}

#[test]
fn difference_retracts_later_negatives() {
    let mut diff = PlacementDifference::new();
    diff.push_pos(place(0, 1, vec![]));
    diff.push_pos(place(0, 2, vec![]));
    assert_eq!(diff.current_count(), 2);
    // a negative arrival retroactively removes an already counted placement
    diff.push_neg(place(0, 1, vec![(9, 9)]));
    assert_eq!(diff.current_count(), 1);
    // identity is the pair alone, so the duplicate is absorbed
    diff.push_pos(place(0, 1, vec![(3, 3)]));
    assert_eq!(diff.current_count(), 1);
    // a negative with no positive counterpart changes nothing yet
    diff.push_neg(place(2, 0, vec![]));
    assert_eq!(diff.current_count(), 1);
    let rest = diff.finish();
    assert_eq!(rest.len(), 1);
    assert_eq!((rest[0].d_0, rest[0].d_1), (0, 2));
}

#[test]
fn difference_is_order_independent() {
    // the same positive and negative identity sets in different arrival
    // orders converge to the same count
    let mut one = PlacementDifference::new();
    one.push_pos(place(0, 1, vec![]));
    one.push_pos(place(1, 2, vec![]));
    one.push_neg(place(1, 2, vec![]));
    let mut two = PlacementDifference::new();
    two.push_neg(place(1, 2, vec![]));
    two.push_pos(place(1, 2, vec![]));
    two.push_pos(place(0, 1, vec![]));
    assert_eq!(one.current_count(), two.current_count());
}

#[test]
fn filter_stage_emits_valid_placements() {
    let w = Workload {
        num_d: 2,
        num_c: 1,
        dist: vec![0, 500, 100, 0],
        latency: vec![1, 2],
        constraint: 200,
    };
    let mut stage = PlacementFilterStage::new(2);
    assert_eq!(stage.push_build_dc(&w, 0).len(), 0);
    assert_eq!(stage.push_build_dc(&w, 1).len(), 0);
    // the probe arrival pairs with both build ids; only (0,1) passes the
    // distance constraint, since (1,0) sits at 100 and (1,1) on the diagonal
    let out = stage.push_probe_dc(&w, 1);
    assert_eq!(out.len(), 1);
    assert_eq!((out[0].d_0, out[0].d_1), (0, 1));
    assert_eq!(out[0].latency, vec![(2, 1)]);
    let out0 = stage.push_probe_dc(&w, 0);
    assert_eq!(out0.len(), 0);
}

#[test]
fn dominance_stage_emits_each_dominated_candidate() {
    let mut stage = DominanceDetectionStage::new(1);
    assert_eq!(stage.push_build_placement(place(0, 2, vec![(1, 1)])).len(), 0);
    assert_eq!(stage.push_build_placement(place(2, 0, vec![(1, 1)])).len(), 0);
    // the candidate (1,2) is dominated by both accumulated placements: one
    // copy per dominating pair
    let hits = stage.push_probe_placement(place(1, 2, vec![(5, 4)]));
    assert_eq!(hits.len(), 2);
    assert!(hits.iter().all(|p| (p.d_0, p.d_1) == (1, 2)));
    // a candidate nobody beats is not emitted
    let none = stage.push_probe_placement(place(0, 1, vec![(1, 1)]));
    assert_eq!(none.len(), 0);
    // a late build arrival flushes the dominated candidates it beats
    let late = stage.push_build_placement(place(1, 0, vec![(2, 2)]));
    assert_eq!(late.len(), 1);
    assert_eq!((late[0].d_0, late[0].d_1), (1, 2));
}

#[test]
fn aggregation_reports_bounded_running_count() {
    let mut agg = AggregationStage::new();
    let mut seen = 0;
    for (a, b) in [(0u16, 1u16), (0, 2), (1, 2), (2, 1)] {
        let count = agg.push_all(place(a, b, vec![]));
        seen += 1;
        // the running count never exceeds the valid placements accumulated
        assert!(count <= seen);
    }
    assert_eq!(agg.push_dominated(place(1, 2, vec![])), 3);
    assert_eq!(agg.push_dominated(place(2, 1, vec![])), 2);
    // a duplicate dominated arrival is absorbed
    assert_eq!(agg.push_dominated(place(1, 2, vec![])), 2);
    let skyline = agg.skyline();
    assert_eq!(skyline.len(), 2);
}

#[test]
fn enumerator_emits_each_id_once_and_distributes() {
    let ids = enumerate_data_centers(5);
    assert_eq!(ids, vec![0, 1, 2, 3, 4]);
    let slots = distribute_ids(&ids, 2);
    assert_eq!(slots.len(), 2);
    assert_eq!(slots[0], vec![0, 2, 4]);
    assert_eq!(slots[1], vec![1, 3]);
    let all = distribute_ids(&ids, 1);
    assert_eq!(all[0], ids);
}

#[test]
fn combination_counts_match_known_values() {
    assert_eq!(compute_combinations(5, 2), 10);
    assert_eq!(compute_combinations(4, 2), 6);
    assert_eq!(compute_combinations(3, 3), 1);
    assert_eq!(compute_combinations(3, 0), 1);
    assert_eq!(compute_combinations(3, 5), 0);
    assert_eq!(compute_combinations(0, 0), 1);
    assert_eq!(compute_combinations(10, 4), 210);
    assert_eq!(compute_combinations(1000, 1000), 1);
}

#[test]
fn coordinator_walks_the_lifecycle() {
    let mut c = PipelineCoordinator::new(3);
    assert_eq!(c.phase, CoordinatorPhase::Idle);
    // nothing happens before the workers are wired
    assert_eq!(c.step(CoordinatorEvent::CountObserved(9)), CoordinatorAction::KeepPolling);
    assert_eq!(c.phase, CoordinatorPhase::Idle);
    assert_eq!(c.step(CoordinatorEvent::WorkersReady), CoordinatorAction::SignalStart);
    assert_eq!(c.phase, CoordinatorPhase::Running);
    assert_eq!(c.step(CoordinatorEvent::CountObserved(2)), CoordinatorAction::KeepPolling);
    assert_eq!(c.phase, CoordinatorPhase::Running);
    assert_eq!(c.step(CoordinatorEvent::CountObserved(3)), CoordinatorAction::SignalStop);
    assert_eq!(c.phase, CoordinatorPhase::Draining);
    assert_eq!(c.step(CoordinatorEvent::WorkersJoined), CoordinatorAction::Finished);
    assert_eq!(c.phase, CoordinatorPhase::Stopped);
    assert_eq!(c.step(CoordinatorEvent::WorkersReady), CoordinatorAction::Finished);
    assert_eq!(c.phase, CoordinatorPhase::Stopped);
}

#[test]
fn implementation_labels_are_fixed() {
    assert_eq!(ImplementationKind::Monolith.label(), "Monolith");
    assert_eq!(ImplementationKind::MonolithEnumeration.label(), "MonolithEnumeration");
    assert_eq!(ImplementationKind::Pipelined.label(), "Pipelined");
}

#[test]
fn replicate_copies_every_field() {
    let p = place(3, 4, vec![(6, 5), (8, 7)]);
    let q = p.replicate();
    assert_eq!(q.d_0, 3);
    assert_eq!(q.d_1, 4);
    assert_eq!(q.latency, vec![(6, 5), (8, 7)]);
}
