use pyth_benchmark_rs::reconnect::ReconnectPolicy;

#[test]
fn backoff_doubles_then_reconnects_at_once() {
    let mut policy = ReconnectPolicy::new();
    assert_eq!((policy.retries(), policy.delay_secs()), (3, 3));
    assert_eq!(policy.on_disconnected(), Some(3));
    assert_eq!(policy.on_disconnected(), Some(6));
    assert_eq!(policy.on_disconnected(), Some(12));
    assert_eq!(policy.on_disconnected(), None);
    assert_eq!((policy.retries(), policy.delay_secs()), (3, 30));
    assert_eq!(policy.on_disconnected(), Some(30));
    assert_eq!(policy.on_disconnected(), Some(60));
    assert_eq!(policy.on_disconnected(), Some(120));
    assert_eq!(policy.on_disconnected(), None);
    assert_eq!(policy.on_disconnected(), Some(30));
}

#[test]
fn a_connection_resets_the_backoff() {
    let mut policy = ReconnectPolicy::new();
    assert_eq!(policy.on_disconnected(), Some(3));
    assert_eq!(policy.on_disconnected(), Some(6));
    policy.on_connected();
    assert_eq!((policy.retries(), policy.delay_secs()), (3, 3));
    assert_eq!(policy.on_disconnected(), Some(3));
}

#[test]
fn never_more_than_three_waits_in_a_row() {
    let mut policy = ReconnectPolicy::new();
    let mut waits_in_a_row = 0;
    for _ in 0..100 {
        match policy.on_disconnected() {
            Some(secs) => {
                assert!((3..=120).contains(&secs));
                waits_in_a_row += 1;
                assert!(waits_in_a_row <= 3);
            }
            None => waits_in_a_row = 0,
        }
    }
}
