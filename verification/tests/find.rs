use sudoku_rust::commands::find::{determine_worker_count, FindTally};

#[test]
fn one_fewer_worker_than_cores_by_default() {
    assert_eq!(7, determine_worker_count(None, 8));
}

#[test]
fn at_least_one_worker_on_one_core() {
    assert_eq!(1, determine_worker_count(None, 1));
}

#[test]
fn requested_worker_count_is_kept() {
    assert_eq!(3, determine_worker_count(Some(3), 8));
    assert_eq!(20, determine_worker_count(Some(20), 8));
}

#[test]
fn negative_request_leaves_that_many_cores() {
    assert_eq!(6, determine_worker_count(Some(-2), 8));
}

#[test]
fn too_small_requests_give_one_worker() {
    assert_eq!(1, determine_worker_count(Some(-10), 8));
    assert_eq!(1, determine_worker_count(Some(0), 8));
}

#[test]
fn tally_keeps_easiest_and_hardest_solutions() {
    let mut tally = FindTally::new();
    tally.record(None);
    assert_eq!((1, 0), (tally.count, tally.solved));
    assert!(tally.easiest.is_none() && tally.hardest.is_none());

    tally.record(Some(("a".to_string(), 12)));
    tally.record(Some(("b".to_string(), 30)));
    tally.record(Some(("c".to_string(), 5)));
    tally.record(Some(("d".to_string(), 30)));
    tally.record(None);

    assert_eq!((6, 4), (tally.count, tally.solved));
    assert_eq!(Some("c".to_string()), tally.easiest);
    assert_eq!(5, tally.easiest_count);
    assert_eq!(Some("b".to_string()), tally.hardest);
    assert_eq!(30, tally.hardest_count);
}
