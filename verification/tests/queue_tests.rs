use queue_core::QueueStore;

#[test]
fn it_works() {
    assert_eq!(2 + 2, 4);
}

#[test]
fn promote_moves_exactly_due_entries() {
    // Scheduled set = {A due at T-10, B due at T+10}; promoting at T moves
    // only A.
    let t: i64 = 1000;
    let mut store = QueueStore::new();
    store.schedule("A".to_string(), t - 10);
    store.schedule("B".to_string(), t + 10);

    let moved = store.promote_due(t);

    assert_eq!(moved, 1);
    assert_eq!(store.pending, vec!["A".to_string()]);
    assert_eq!(store.scheduled.len(), 1);
    assert_eq!(store.scheduled[0].job_id, "B".to_string());
    assert_eq!(store.scheduled[0].due, t + 10);
}

#[test]
fn promote_second_call_moves_nothing() {
    let t: i64 = 1000;
    let mut store = QueueStore::new();
    store.schedule("A".to_string(), t - 10);
    store.schedule("B".to_string(), t + 10);

    assert_eq!(store.promote_due(t), 1);
    assert_eq!(store.promote_due(t), 0);
    assert_eq!(store.pending, vec!["A".to_string()]);
    assert_eq!(store.scheduled.len(), 1);
}

#[test]
fn promote_includes_entry_due_exactly_now() {
    let mut store = QueueStore::new();
    store.schedule("C".to_string(), 1000);
    assert_eq!(store.promote_due(1000), 1);
    assert_eq!(store.pending, vec!["C".to_string()]);
    assert!(store.scheduled.is_empty());
}

#[test]
fn promote_on_empty_store_returns_zero() {
    let mut store = QueueStore::new();
    assert_eq!(store.promote_due(123), 0);
    assert!(store.pending.is_empty());
}

#[test]
fn promote_keeps_due_time_order_in_pending() {
    let mut store = QueueStore::new();
    store.schedule("B".to_string(), 90);
    store.schedule("A".to_string(), 80);
    store.schedule("C".to_string(), 200);

    assert_eq!(store.promote_due(100), 2);
    assert_eq!(store.pending, vec!["A".to_string(), "B".to_string()]);

    // FIFO: the earliest-due job is claimed first.
    let first = store.claim_next(500);
    assert_eq!(first, Some("A".to_string()));
    let second = store.claim_next(500);
    assert_eq!(second, Some("B".to_string()));
    assert_eq!(store.claim_next(500), None);
}

#[test]
fn complete_job_success_writes_record_once() {
    // Lease set = {J: expiry=1000}; completing with the matching token at
    // now=1050 succeeds and writes the record; repeating fails.
    let mut store = QueueStore::new();
    store.enqueue("J".to_string());
    assert_eq!(store.claim_next(1000), Some("J".to_string()));

    assert!(store.complete_job(&"J".to_string(), 1000, 1050));

    assert!(store.leases.is_empty());
    assert_eq!(store.done, vec!["J".to_string()]);
    assert_eq!(store.records.len(), 1);
    assert_eq!(store.records[0].job_id, "J".to_string());
    assert_eq!(store.records[0].end, Some(1050));
    assert_eq!(store.records[0].success, Some(true));

    // The job is gone from the lease set: the same call now fails and the
    // record keeps its first write.
    let snapshot = store.clone();
    assert!(!store.complete_job(&"J".to_string(), 1000, 2000));
    assert_eq!(store, snapshot);
    assert_eq!(store.records[0].end, Some(1050));
}

#[test]
fn complete_job_wrong_token_mutates_nothing() {
    let mut store = QueueStore::new();
    store.enqueue("J".to_string());
    store.claim_next(1000);
    let snapshot = store.clone();

    // Same job id, different expiry: the fencing comparison refuses.
    assert!(!store.complete_job(&"J".to_string(), 999, 1050));
    assert_eq!(store, snapshot);

    // Entirely absent job id: refused too.
    assert!(!store.complete_job(&"K".to_string(), 1000, 1050));
    assert_eq!(store, snapshot);
}

#[test]
fn complete_job_serialized_race_has_one_winner() {
    // Two workers race with the same token; the store runs one attempt at
    // a time, so one succeeds and the second fails without a second write.
    let mut store = QueueStore::new();
    store.enqueue("J".to_string());
    store.claim_next(700);

    let first = store.complete_job(&"J".to_string(), 700, 710);
    let after_first = store.clone();
    let second = store.complete_job(&"J".to_string(), 700, 720);

    assert!(first);
    assert!(!second);
    assert_eq!(store, after_first);
    assert_eq!(store.done, vec!["J".to_string()]);
    assert_eq!(store.records.len(), 1);
    assert_eq!(store.records[0].end, Some(710));
}

#[test]
fn complete_job_updates_existing_record_in_place() {
    let mut store = QueueStore::new();
    store.enqueue("J".to_string());
    store.claim_next(400);
    // A record already exists for the job (written by whoever claimed it).
    store.records.push(queue_core::JobRecord {
        job_id: "J".to_string(),
        end: None,
        success: None,
    });

    assert!(store.complete_job(&"J".to_string(), 400, 450));
    assert_eq!(store.records.len(), 1);
    assert_eq!(store.records[0].end, Some(450));
    assert_eq!(store.records[0].success, Some(true));
}
