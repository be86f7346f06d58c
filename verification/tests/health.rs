use arb_scanner::health::HealthState;

#[test]
fn health_figures() {
    let mut h = HealthState::new();
    assert!(!h.ws_connected());
    assert_eq!(h.last_window_at_ns(), 0);
    assert_eq!(h.write_queue_pending(), 0);
    h.set_ws_connected(true);
    h.set_last_window_at_ns(42);
    h.inc_write_queue_pending();
    h.inc_write_queue_pending();
    h.dec_write_queue_pending();
    assert!(h.ws_connected());
    assert_eq!(h.last_window_at_ns(), 42);
    assert_eq!(h.write_queue_pending(), 1);
    h.set_ws_connected(false);
    assert!(!h.ws_connected());
    assert_eq!(h.last_window_at_ns(), 42);
}

#[test]
fn write_queue_count_wraps_around() {
    let mut h = HealthState::new();
    h.dec_write_queue_pending();
    assert_eq!(h.write_queue_pending(), u64::MAX);
    h.inc_write_queue_pending();
    assert_eq!(h.write_queue_pending(), 0);
}
