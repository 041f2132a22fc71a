use kvs::pool::PoolSupervisor;

#[test]
fn fresh_pool_is_at_target() {
    let sup = PoolSupervisor::new(4);
    assert_eq!(sup.live_workers(), 4);
}

#[test]
fn watcher_replaces_lost_workers() {
    let mut sup = PoolSupervisor::new(4);
    sup.worker_panicked();
    sup.worker_panicked();
    assert_eq!(sup.live_workers(), 2);
    assert_eq!(sup.take_respawns(), 2);
    assert_eq!(sup.live_workers(), 4);
    assert_eq!(sup.take_respawns(), 0);
}

#[test]
fn panics_never_go_below_zero() {
    let mut sup = PoolSupervisor::new(1);
    sup.worker_panicked();
    sup.worker_panicked();
    assert_eq!(sup.live_workers(), 0);
    assert_eq!(sup.take_respawns(), 1);
    assert_eq!(sup.live_workers(), 1);
}

#[test]
fn empty_pool_needs_no_respawns() {
    let mut sup = PoolSupervisor::new(0);
    sup.worker_panicked();
    assert_eq!(sup.live_workers(), 0);
    assert_eq!(sup.take_respawns(), 0);
}
