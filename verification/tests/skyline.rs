use precomputation::monolith::run_monolith_enumeration;
use precomputation::pipeline::run_pipeline;
use precomputation::placement::contains_dc_pair;
use precomputation::workload::{benchmark_distances, benchmark_latencies, Workload};

fn three_centers(dist: Vec<usize>, latency: Vec<u64>, num_c: usize) -> Workload {
    Workload { num_d: 3, num_c, dist, latency, constraint: 200 }
}

fn all_far_apart() -> Vec<usize> {
    // distances: every off-diagonal pair at 500, the diagonal at 0
    vec![0, 500, 500, 500, 0, 500, 500, 500, 0]
}

#[test]
fn identity_latencies_keep_every_pair() {
    // 3 data centers, all distances 500 > 200, one client, every latency 1:
    // all 3 unordered pairs are valid and none dominates another, so the
    // skyline holds every valid placement.
    let w = three_centers(all_far_apart(), vec![1, 1, 1], 1);
    let run = run_pipeline(&w, 1, 1);
    assert_eq!(run.count, run.skyline.len());
    // every ordered orientation of the 3 unordered pairs survives
    assert_eq!(run.count, 6);
    for (a, b) in [(0u16, 1u16), (0, 2), (1, 2)] {
        assert!(contains_dc_pair(&run.skyline, a, b));
        assert!(contains_dc_pair(&run.skyline, b, a));
    }
    // no placement pairs a data center with itself
    for d in 0u16..3 {
        assert!(!contains_dc_pair(&run.skyline, d, d));
    }
    // counted as unordered pairs the skyline size is 3
    let mut unordered = 0;
    for p in &run.skyline {
        if p.d_0 < p.d_1 {
            unordered += 1;
        }
    }
    assert_eq!(unordered, 3);
}

#[test]
fn worse_center_ties_on_read_latency() {
    // same setup but data center 1 answers in 5 instead of 1: placements
    // involving center 1 have write latency 5 against 1, yet their read
    // latency still ties at 1, and dominance demands strictly lower in both
    // components, so nothing is dominated and the skyline keeps all 6
    // ordered placements.
    let w = three_centers(all_far_apart(), vec![1, 5, 1], 1);
    let run = run_pipeline(&w, 1, 1);
    assert_eq!(run.count, 6);
    assert!(contains_dc_pair(&run.skyline, 0, 1));
    assert!(contains_dc_pair(&run.skyline, 1, 2));
}

#[test]
fn strictly_worse_placements_are_dominated() {
    // latencies 1, 5, 2: the placement (1,2) offers (write 5, read 2) while
    // (0,2) offers (write 2, read 1), strictly better in both components, so
    // every placement of centers 1 and 2 together is dominated.
    let w = three_centers(all_far_apart(), vec![1, 5, 2], 1);
    let run = run_pipeline(&w, 1, 1);
    assert_eq!(run.count, 4);
    assert!(contains_dc_pair(&run.skyline, 0, 1));
    assert!(contains_dc_pair(&run.skyline, 1, 0));
    assert!(contains_dc_pair(&run.skyline, 0, 2));
    assert!(contains_dc_pair(&run.skyline, 2, 0));
    assert!(!contains_dc_pair(&run.skyline, 1, 2));
    assert!(!contains_dc_pair(&run.skyline, 2, 1));
}

#[test]
fn close_pair_is_excluded_entirely() {
    // the pair (0,1) sits at distance 100, below the constraint 200: it
    // never enters the valid stream nor the skyline, whatever its latency.
    let dist = vec![0, 100, 500, 100, 0, 500, 500, 500, 0];
    let w = three_centers(dist, vec![1, 1, 1], 1);
    assert!(!w.is_valid_pair(0, 1));
    assert!(!w.is_valid_pair(1, 0));
    assert!(w.is_valid_pair(0, 2));
    let run = run_pipeline(&w, 1, 1);
    assert_eq!(run.count, 4);
    assert!(!contains_dc_pair(&run.skyline, 0, 1));
    assert!(!contains_dc_pair(&run.skyline, 1, 0));
    assert!(contains_dc_pair(&run.skyline, 0, 2));
    assert!(contains_dc_pair(&run.skyline, 1, 2));
}

#[test]
fn more_worker_stages_change_nothing() {
    // the same workload over several filter and dominance stages yields the
    // same skyline as a single instance of each
    let w = three_centers(all_far_apart(), vec![1, 5, 2], 1);
    for num_filter in 1..4 {
        for num_dominance in 1..4 {
            let run = run_pipeline(&w, num_filter, num_dominance);
            assert_eq!(run.count, 4);
            assert!(!contains_dc_pair(&run.skyline, 1, 2));
        }
    }
}

#[test]
fn benchmark_tables_make_every_placement_optimal() {
    // the synthetic benchmark tables: all off-diagonal distances satisfy the
    // constraint and every latency is 1, so the skyline is every ordered
    // pair of distinct data centers
    let num_d = 4;
    let num_c = 2;
    let dist = benchmark_distances(num_d, 200);
    assert_eq!(dist.len(), 16);
    assert_eq!(dist[0], 0);
    assert_eq!(dist[1], 401);
    assert_eq!(dist[5], 0);
    let latency = benchmark_latencies(num_d, num_c);
    assert_eq!(latency.len(), 8);
    assert!(latency.iter().all(|l| *l == 1));
    let w = Workload { num_d, num_c, dist, latency, constraint: 200 };
    let run = run_pipeline(&w, 2, 2);
    assert_eq!(run.count, num_d * num_d - num_d);
}

#[test]
fn build_placement_takes_worst_write_best_read() {
    // two clients; center 0 answers in 3 and 7, center 1 in 5 and 2
    let w = Workload {
        num_d: 2,
        num_c: 2,
        dist: vec![0, 500, 500, 0],
        latency: vec![3, 7, 5, 2],
        constraint: 200,
    };
    let p = w.build_placement(0, 1);
    assert_eq!(p.d_0, 0);
    assert_eq!(p.d_1, 1);
    assert_eq!(p.latency, vec![(5, 3), (7, 2)]);
}

#[test]
fn monolith_enumeration_counts_valid_combinations() {
    let w = three_centers(all_far_apart(), vec![1, 1, 1], 1);
    let (placements, count) = run_monolith_enumeration(&w);
    assert_eq!(count, 3);
    assert_eq!(placements.len(), 3);
    assert!(placements.iter().all(|p| p.d_0 < p.d_1));
    // with one pair below the constraint, only the other two combinations count
    let dist = vec![0, 100, 500, 100, 0, 500, 500, 500, 0];
    let w2 = three_centers(dist, vec![1, 1, 1], 1);
    let (_, count2) = run_monolith_enumeration(&w2);
    assert_eq!(count2, 2);
}

#[test]
fn empty_workload_has_empty_skyline() {
    let w = Workload { num_d: 0, num_c: 0, dist: vec![], latency: vec![], constraint: 200 };
    let run = run_pipeline(&w, 1, 1);
    assert_eq!(run.count, 0);
    assert!(run.skyline.is_empty());
}
