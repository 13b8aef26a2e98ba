use queue_core::{
    rotation_action, AcquireDecision, AcquireStep, Error, PoolCore, PooledConn, RotationAction,
};

#[test]
fn pool_reserves_creates_and_saturates() {
    let mut pool = PoolCore::new(1, 1, 1000);

    // Nothing idle, room under the cap: the caller must create.
    assert_eq!(pool.try_acquire(100), AcquireDecision::MustCreate);
    let conn = pool.register_created(100);
    assert_eq!(conn, PooledConn { conn_id: 0, lease_id: 1 });

    // One connection outstanding out of max 1: refused immediately.
    assert_eq!(pool.try_acquire(100), AcquireDecision::Exhausted);
    assert_eq!(pool.stats().created, 1);
}

#[test]
fn pool_recycles_valid_returned_connection() {
    let mut pool = PoolCore::new(1, 1, 1000);
    assert_eq!(pool.try_acquire(100), AcquireDecision::MustCreate);
    let conn = pool.register_created(100);

    pool.return_conn(conn, 200, true);
    assert_eq!(pool.stats().recycled, 1);

    // The same connection is handed out again while its lease is valid.
    assert_eq!(pool.try_acquire(300), AcquireDecision::Granted(conn));
}

#[test]
fn pool_never_rehands_conn_with_expired_lease() {
    let mut pool = PoolCore::new(2, 7, 1000);
    assert_eq!(pool.try_acquire(0), AcquireDecision::MustCreate);
    let conn = pool.register_created(0);

    // Returned while the lease was still valid: recycled into the idle set.
    pool.return_conn(conn, 500, true);
    assert_eq!(pool.stats().recycled, 1);

    // The lease has since expired: the idle connection is discarded, never
    // granted, and a creation is asked for instead.
    assert_eq!(pool.try_acquire(1500), AcquireDecision::MustCreate);
    assert_eq!(pool.stats().discarded, 1);

    // After rotating to a fresh lease the new connection is backed by it.
    pool.rotate_lease(9000);
    let fresh = pool.register_created(1500);
    assert_eq!(fresh.lease_id, 8);
    assert_eq!(pool.stats().current_lease_expiry, 9000);
}

#[test]
fn pool_discards_conn_returned_after_expiry() {
    let mut pool = PoolCore::new(1, 1, 1000);
    assert_eq!(pool.try_acquire(0), AcquireDecision::MustCreate);
    let conn = pool.register_created(0);

    // Returned after its tagged lease expired: discarded, not pooled.
    pool.return_conn(conn, 1500, true);
    assert_eq!(pool.stats().discarded, 1);
    assert_eq!(pool.stats().recycled, 0);
    assert!(pool.idle.is_empty());
}

#[test]
fn pool_discards_conn_with_superseded_lease() {
    let mut pool = PoolCore::new(1, 1, 1000);
    assert_eq!(pool.try_acquire(0), AcquireDecision::MustCreate);
    let conn = pool.register_created(0);

    // Rotation supersedes the tag even though nothing has expired yet.
    pool.rotate_lease(5000);
    pool.return_conn(conn, 100, true);
    assert_eq!(pool.stats().discarded, 1);
    assert!(pool.idle.is_empty());
}

#[test]
fn pool_discards_dead_connection() {
    let mut pool = PoolCore::new(1, 1, 1000);
    assert_eq!(pool.try_acquire(0), AcquireDecision::MustCreate);
    let conn = pool.register_created(0);

    pool.return_conn(conn, 100, false);
    assert_eq!(pool.stats().discarded, 1);
    assert!(pool.idle.is_empty());

    // The slot is free again: the next acquisition creates lazily.
    assert_eq!(pool.try_acquire(100), AcquireDecision::MustCreate);
}

#[test]
fn pool_cap_holds_under_repeated_acquisition() {
    let max: usize = 3;
    let mut pool = PoolCore::new(max, 1, 1_000_000);
    let mut held = Vec::new();
    for i in 0..10 {
        match pool.try_acquire(i) {
            AcquireDecision::Granted(c) => held.push(c),
            AcquireDecision::MustCreate => held.push(pool.register_created(i)),
            AcquireDecision::Exhausted => {}
        }
        assert!(pool.outstanding + pool.creating + pool.idle.len() <= max);
    }
    assert_eq!(held.len(), max);
    assert_eq!(pool.outstanding, max);
}

#[test]
fn failed_creation_releases_the_slot() {
    let mut pool = PoolCore::new(1, 1, 1000);
    assert_eq!(pool.try_acquire(0), AcquireDecision::MustCreate);
    // The mint or the handshake failed: the reservation is taken back.
    pool.fail_create();
    assert_eq!(pool.try_acquire(0), AcquireDecision::MustCreate);
    assert_eq!(pool.stats().created, 0);
}

#[test]
fn acquire_step_waits_then_times_out() {
    let mut pool = PoolCore::new(1, 1, 1000);
    assert_eq!(pool.try_acquire(0), AcquireDecision::MustCreate);
    let _conn = pool.register_created(0);

    // Saturated before the deadline: wait; at the deadline: timeout.
    assert_eq!(pool.acquire_step(5, 10), AcquireStep::Wait);
    assert_eq!(pool.acquire_step(10, 10), AcquireStep::TimedOut);
}

#[test]
fn acquire_step_grants_like_try_acquire() {
    let mut pool = PoolCore::new(1, 1, 1000);
    assert_eq!(pool.acquire_step(0, 10), AcquireStep::MustCreate);
    let conn = pool.register_created(0);
    pool.return_conn(conn, 1, true);
    assert_eq!(pool.acquire_step(2, 10), AcquireStep::Granted(conn));
}

#[test]
fn renew_extends_without_superseding() {
    let mut pool = PoolCore::new(1, 1, 1000);
    assert_eq!(pool.try_acquire(0), AcquireDecision::MustCreate);
    let conn = pool.register_created(0);

    // Renewal moves the expiry out; the tagged connection stays valid past
    // the old expiry.
    pool.renew_lease(5000);
    pool.return_conn(conn, 1500, true);
    assert_eq!(pool.stats().recycled, 1);
    assert_eq!(pool.try_acquire(1500), AcquireDecision::Granted(conn));
    assert_eq!(conn.lease_id, 1);
}

#[test]
fn rotation_policy_decides_renew_rotate_or_sleep() {
    // Far from expiry: sleep.
    assert_eq!(rotation_action(true, 10_000, 0, 5000, 1000), RotationAction::Sleep);
    // Within the renewal window and renewable: renew.
    assert_eq!(rotation_action(true, 10_000, 6000, 5000, 1000), RotationAction::Renew);
    // Near the hard end: rotate even when renewable.
    assert_eq!(rotation_action(true, 10_000, 9500, 5000, 1000), RotationAction::Rotate);
    // Not renewable: never renew, only rotate near the end.
    assert_eq!(rotation_action(false, 10_000, 6000, 5000, 1000), RotationAction::Sleep);
    assert_eq!(rotation_action(false, 10_000, 9200, 5000, 1000), RotationAction::Rotate);
    // Already expired: rotate at once.
    assert_eq!(rotation_action(true, 10_000, 20_000, 5000, 1000), RotationAction::Rotate);
}

#[test]
fn stats_snapshot_reports_all_counters() {
    let mut pool = PoolCore::new(2, 1, 1000);
    assert_eq!(pool.try_acquire(0), AcquireDecision::MustCreate);
    let conn = pool.register_created(0);
    pool.return_conn(conn, 100, true);
    assert_eq!(pool.try_acquire(0), AcquireDecision::Granted(conn));
    pool.return_conn(conn, 100, false);

    let stats = pool.stats();
    assert_eq!(stats.created, 1);
    assert_eq!(stats.recycled, 1);
    assert_eq!(stats.discarded, 1);
    assert_eq!(stats.current_lease_expiry, 1000);
}

#[test]
fn error_variants_are_distinct() {
    assert_ne!(Error::Timeout, Error::Exhausted);
    assert_ne!(Error::Backend, Error::Transport);
    assert_ne!(Error::Timeout, Error::Backend);
    let e = Error::Exhausted;
    assert!(matches!(e, Error::Exhausted));
}
