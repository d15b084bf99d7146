use kernel_bench::{run, Benchmark, Progress, REPORT_EVERY};

fn ids(bench: &Benchmark) -> Vec<i64> {
    (0..bench.pool_len()).map(|j| bench.object(j).id).collect()
}

#[test]
fn small_run_scenario() {
    let (bench, progress) = run(5, 3, REPORT_EVERY);
    assert_eq!(ids(&bench), vec![3, 4, 2]);
    assert_eq!(bench.total(), 10);
    assert_eq!(bench.iteration(), 5);
    assert_eq!(progress, vec![Progress { iteration: 0, total: 0 }]);
}

#[test]
fn objects_in_pool_are_worked_on() {
    let (bench, _) = run(5, 3, REPORT_EVERY);
    for j in 0..bench.pool_len() {
        let obj = bench.object(j);
        for i in 0..64 {
            assert_eq!(obj.get_data(i), obj.id + i as i64);
        }
    }
}

#[test]
fn pool_grows_until_full() {
    let (bench, _) = run(7, 10, REPORT_EVERY);
    assert_eq!(bench.pool_len(), 7);
    let (bench, _) = run(2500, 1000, REPORT_EVERY);
    assert_eq!(bench.pool_len(), 1000);
    assert_eq!(bench.array_size(), 1000);
}

#[test]
fn each_slot_holds_latest_iteration() {
    let (bench, _) = run(10, 3, REPORT_EVERY);
    assert_eq!(ids(&bench), vec![9, 7, 8]);
    let (bench, _) = run(2500, 1000, REPORT_EVERY);
    for j in 0..1000usize {
        let expected = if j < 500 { 2000 + j } else { 1000 + j };
        assert_eq!(bench.object(j).id, expected as i64);
    }
}

#[test]
fn no_iterations_for_non_positive_count() {
    let (bench, progress) = run(0, 3, REPORT_EVERY);
    assert_eq!(bench.pool_len(), 0);
    assert_eq!(bench.total(), 0);
    assert!(progress.is_empty());
    let (bench, progress) = run(-4, 3, REPORT_EVERY);
    assert_eq!(bench.iteration(), 0);
    assert!(progress.is_empty());
}

#[test]
fn runs_are_deterministic() {
    let (a, pa) = run(3000, 1000, 100);
    let (b, pb) = run(3000, 1000, 100);
    assert_eq!(a.total(), b.total());
    assert_eq!(ids(&a), ids(&b));
    assert_eq!(pa, pb);
}

#[test]
fn total_is_triangular_sum() {
    let (a, _) = run(1000, 7, REPORT_EVERY);
    assert_eq!(a.total(), 499_500);
    let (b, _) = run(1000, 1000, REPORT_EVERY);
    assert_eq!(b.total(), 499_500);
}

#[test]
fn progress_cadence() {
    let (_, progress) = run(25, 3, 10);
    assert_eq!(
        progress,
        vec![
            Progress { iteration: 0, total: 0 },
            Progress { iteration: 10, total: 55 },
            Progress { iteration: 20, total: 210 },
        ]
    );
    let (_, progress) = run(20, 3, 10);
    assert_eq!(progress.len(), 2);
    let (_, progress) = run(21, 3, 10);
    assert_eq!(progress.len(), 3);
}

#[test]
fn step_by_step_matches_run() {
    let mut bench = Benchmark::new(4, 3);
    assert_eq!(bench.step(), Some(Progress { iteration: 0, total: 0 }));
    assert_eq!(bench.step(), None);
    assert_eq!(bench.step(), None);
    assert_eq!(bench.step(), Some(Progress { iteration: 3, total: 6 }));
    let (whole, _) = run(4, 4, 3);
    assert_eq!(bench.total(), whole.total());
    assert_eq!(ids(&bench), ids(&whole));
}

#[test]
fn values_stay_non_negative() {
    let (bench, progress) = run(500, 16, 50);
    assert!(bench.total() >= 0);
    assert!(progress.iter().all(|p| p.total >= 0));
    for j in 0..bench.pool_len() {
        assert!(bench.object(j).data.iter().all(|&v| v >= 0));
    }
}
