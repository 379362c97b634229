use hot_or_not_settlement::task_runner::{run_to_completion, TaskRunner};

#[test]
fn thirty_seven_units_never_exceed_ten_in_flight_and_all_complete_once() {
    let mut runner = TaskRunner::new(37, 10);
    while runner.can_admit() {
        runner.admit_next();
    }
    assert_eq!(runner.in_flight_count(), 10);

    let mut step: usize = 0;
    while runner.in_flight_count() > 0 {
        assert!(runner.in_flight_count() <= 10);
        let n = runner.in_flight_count();
        let u = runner.in_flight_at((step * 7 + 3) % n);
        runner.on_complete(u);
        if runner.can_admit() {
            runner.admit_next();
        }
        assert!(runner.in_flight_count() <= 10);
        step += 1;
    }

    let completed = runner.completed_list();
    assert_eq!(completed.len(), 37);
    let mut seen = vec![false; 37];
    for &u in completed.iter() {
        assert!(u < 37);
        assert!(!seen[u]);
        seen[u] = true;
    }
    for flag in seen {
        assert!(flag);
    }
}

#[test]
fn run_to_completion_drains_any_completion_order() {
    let picks = vec![4usize, 0, 9, 2, 2, 7, 1];
    let runner = run_to_completion(37, 10, &picks);
    let completed = runner.completed_list();
    assert_eq!(completed.len(), 37);
    let mut seen = vec![false; 37];
    for &u in completed.iter() {
        assert!(!seen[u]);
        seen[u] = true;
    }
}

#[test]
fn empty_batch_is_a_no_op() {
    let picks = vec![1usize];
    let runner = run_to_completion(0, 10, &picks);
    assert_eq!(runner.completed_list().len(), 0);
}

#[test]
fn zero_width_window_is_a_no_op() {
    let picks = vec![0usize];
    let runner = run_to_completion(5, 0, &picks);
    assert_eq!(runner.completed_list().len(), 0);
}

#[test]
fn early_stop_drops_pending_units_but_drains_admitted_ones() {
    let mut runner = TaskRunner::new(6, 2);
    while runner.can_admit() {
        runner.admit_next();
    }
    assert_eq!(runner.in_flight_count(), 2);
    runner.signal_stop();
    while runner.in_flight_count() > 0 {
        let u = runner.in_flight_at(0);
        runner.on_complete(u);
        assert!(!runner.can_admit());
    }
    let completed = runner.completed_list();
    assert_eq!(completed.len(), 2);
    assert!(completed.contains(&0));
    assert!(completed.contains(&1));
}
