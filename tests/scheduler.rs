use jpksj_to_sql::scheduler::{
    plan_dataset, plan_mapping, pool_size, worker_count, Progress, QueueLifecycle, SchedulerError,
};

#[test]
fn workers_are_one_fewer_than_cpus() {
    assert_eq!(worker_count(8), 7);
    assert_eq!(worker_count(2), 1);
    assert_eq!(worker_count(1), 1);
    assert_eq!(worker_count(0), 1);
    assert!(pool_size() >= 1);
}

#[test]
fn second_run_converts_nothing_and_still_records_metadata() {
    let first = plan_dataset(&vec![false, false], true, true, true);
    assert!(first.iter().all(|p| p.convert && p.record_metadata));
    let second = plan_dataset(&vec![true, true], true, true, true);
    assert_eq!(second.len(), 2);
    assert!(second.iter().all(|p| !p.convert));
    assert!(second.iter().all(|p| p.record_metadata));
    assert!(second.iter().all(|p| p.introspect && p.build_descriptor && p.extract));
}

#[test]
fn skipped_database_output_needs_no_extraction() {
    let p = plan_mapping(true, true, false, true);
    assert!(!p.extract && !p.build_descriptor && !p.convert && !p.introspect && p.record_metadata);
    let q = plan_mapping(false, true, false, false);
    assert!(q.extract && q.build_descriptor && q.convert && !q.record_metadata);
}

#[test]
fn queue_refuses_work_after_drain() {
    let mut q = QueueLifecycle::new();
    assert_eq!(q.submit(), Ok(()));
    assert_eq!(q.submit(), Ok(()));
    assert_eq!(q.submitted, 2);
    assert_eq!(q.drain(), Ok(()));
    assert_eq!(q.submit(), Err(SchedulerError::AlreadyClosed));
    assert_eq!(q.drain(), Err(SchedulerError::AlreadyClosed));
    assert_eq!(q.submitted, 2);
}

#[test]
fn progress_counts_added_and_finished() {
    let mut p = Progress::new();
    p.apply(3, 0, None);
    p.apply(0, 1, Some("N03".to_string()));
    p.apply(0, 0, None);
    assert_eq!(p.length, 3);
    assert_eq!(p.position, 1);
    assert_eq!(p.message, Some("N03".to_string()));
    p.apply(u64::MAX, 0, None);
    assert_eq!(p.length, u64::MAX);
}
