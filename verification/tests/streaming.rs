use pyth_benchmark_rs::streaming::{
    get_next_daily_bar_time, next_daily_bar, record_daily_bar, subscribe_on_stream, unsubscribe_from_stream,
    DailyBarStep, SubscriptionTable, DAY_MILLIS, MAX_DAILY_BAR_TIME,
};
use pyth_benchmark_rs::table::ChannelTable;
use pyth_benchmark_rs::types::Bar;

#[test]
fn test_get_next_daily_bar_time() {
    let timestamp = 1_717_000_000_000; // Some timestamp in milliseconds
    let next = get_next_daily_bar_time(timestamp);

    // Should be exactly 24 hours later
    assert_eq!(next - timestamp, 24 * 60 * 60 * 1000);
}

#[test]
fn next_daily_bar_time_drops_the_milliseconds() {
    assert_eq!(get_next_daily_bar_time(1_717_000_000_999), 1_717_000_000_000 + DAY_MILLIS);
    assert_eq!(get_next_daily_bar_time(0), DAY_MILLIS);
    assert_eq!(get_next_daily_bar_time(MAX_DAILY_BAR_TIME), 18_446_744_073_709_551_000);
}

fn bar(time: u64, price: f64) -> Bar<f64> {
    Bar { time, low: price, high: price, open: price, close: price }
}

#[test]
fn a_trade_after_the_day_opens_a_new_bar() {
    let last = Bar { time: 1_717_000_000_000, low: 90.0, high: 110.0, open: 100.0, close: 105.0 };
    match next_daily_bar(&last, 1_717_086_400, 120.0) {
        DailyBarStep::Open(b) => {
            assert_eq!(b.time, 1_717_086_400_000);
            assert_eq!((b.open, b.high, b.low, b.close), (120.0, 120.0, 120.0, 120.0));
        }
        DailyBarStep::Extend => panic!("expected a new bar"),
    }
}

#[test]
fn a_trade_within_the_day_extends_the_bar() {
    let last = bar(1_717_000_000_000, 100.0);
    assert!(matches!(next_daily_bar(&last, 1_717_086_399, 120.0), DailyBarStep::Extend));
    assert!(matches!(next_daily_bar(&last, 1_717_000_000, 120.0), DailyBarStep::Extend));
    assert!(matches!(next_daily_bar(&last, 5, 120.0), DailyBarStep::Extend));
}

#[test]
fn trade_times_far_beyond_the_day_open_a_bar_without_overflow() {
    let last = bar(1_717_000_000_999, 100.0);
    assert!(matches!(next_daily_bar(&last, u64::MAX, 1.0), DailyBarStep::Open(_)));
    match next_daily_bar(&last, 1_717_086_400, 2.0) {
        DailyBarStep::Open(b) => assert_eq!(b.time, 1_717_086_400_000),
        DailyBarStep::Extend => panic!("expected a new bar"),
    }
}

#[test]
fn subscribing_registers_one_handler() {
    let mut subs: SubscriptionTable<f64, u32> = ChannelTable::new();
    subscribe_on_stream("BTC/USD".to_string(), "1D".to_string(), "sub1".to_string(), bar(1_717_000_000, 100.0), &mut subs, 7);
    assert_eq!(subs.len(), 1);
    let sub = subs.get("BTC/USD").expect("subscribed");
    assert_eq!(sub.subscriber_uid, "sub1");
    assert_eq!(sub.resolution, "1D");
    assert_eq!(sub.last_daily_bar.time, 1_717_000_000);
    assert_eq!(sub.handlers.len(), 1);
    assert_eq!(sub.handlers[0].id, "sub1");
    assert_eq!(sub.handlers[0].callback, 7);
}

#[test]
fn subscribing_again_replaces_the_subscription() {
    let mut subs: SubscriptionTable<f64, u32> = ChannelTable::new();
    subscribe_on_stream("BTC/USD".to_string(), "1D".to_string(), "sub1".to_string(), bar(1, 100.0), &mut subs, 1);
    subscribe_on_stream("ETH/USD".to_string(), "1D".to_string(), "sub2".to_string(), bar(2, 50.0), &mut subs, 2);
    subscribe_on_stream("BTC/USD".to_string(), "1H".to_string(), "sub3".to_string(), bar(3, 101.0), &mut subs, 3);
    assert_eq!(subs.len(), 2);
    assert_eq!(subs.key_at(0), "BTC/USD");
    let sub = subs.get("BTC/USD").unwrap();
    assert_eq!(sub.subscriber_uid, "sub3");
    assert_eq!(sub.resolution, "1H");
    assert_eq!(sub.handlers[0].callback, 3);
    assert_eq!(subs.get("ETH/USD").unwrap().subscriber_uid, "sub2");
}

#[test]
fn unsubscribing_removes_the_subscription_of_the_handler() {
    let mut subs: SubscriptionTable<f64, u32> = ChannelTable::new();
    subscribe_on_stream("BTC/USD".to_string(), "1D".to_string(), "sub1".to_string(), bar(1, 100.0), &mut subs, 1);
    subscribe_on_stream("ETH/USD".to_string(), "1D".to_string(), "sub2".to_string(), bar(2, 50.0), &mut subs, 2);
    assert_eq!(unsubscribe_from_stream("sub2", &mut subs), Some("ETH/USD".to_string()));
    assert_eq!(subs.len(), 1);
    assert!(subs.get("ETH/USD").is_none());
    assert!(subs.get("BTC/USD").is_some());
}

#[test]
fn unsubscribing_an_unknown_handler_changes_nothing() {
    let mut subs: SubscriptionTable<f64, u32> = ChannelTable::new();
    subscribe_on_stream("BTC/USD".to_string(), "1D".to_string(), "sub1".to_string(), bar(1, 100.0), &mut subs, 1);
    assert_eq!(unsubscribe_from_stream("nobody", &mut subs), None);
    assert_eq!(subs.len(), 1);
}

#[test]
fn unsubscribing_removes_only_the_first_match() {
    let mut subs: SubscriptionTable<f64, u32> = ChannelTable::new();
    subscribe_on_stream("A".to_string(), "1D".to_string(), "same".to_string(), bar(1, 1.0), &mut subs, 1);
    subscribe_on_stream("B".to_string(), "1D".to_string(), "same".to_string(), bar(2, 2.0), &mut subs, 2);
    assert_eq!(unsubscribe_from_stream("same", &mut subs), Some("A".to_string()));
    assert_eq!(subs.len(), 1);
    assert_eq!(subs.key_at(0), "B");
}

#[test]
fn subscribe_then_unsubscribe_restores_the_table() {
    let mut subs: SubscriptionTable<f64, u32> = ChannelTable::new();
    subscribe_on_stream("A".to_string(), "1D".to_string(), "a".to_string(), bar(1, 1.0), &mut subs, 1);
    subscribe_on_stream("B".to_string(), "1D".to_string(), "b".to_string(), bar(2, 2.0), &mut subs, 2);
    assert_eq!(unsubscribe_from_stream("b", &mut subs), Some("B".to_string()));
    assert_eq!(subs.len(), 1);
    assert_eq!(subs.key_at(0), "A");
    assert_eq!(subs.value_at(0).subscriber_uid, "a");
}

#[test]
fn recording_a_bar_changes_only_that_bar() {
    let mut subs: SubscriptionTable<f64, u32> = ChannelTable::new();
    subscribe_on_stream("A".to_string(), "1D".to_string(), "a".to_string(), bar(1, 1.0), &mut subs, 1);
    subscribe_on_stream("B".to_string(), "1H".to_string(), "b".to_string(), bar(2, 2.0), &mut subs, 2);
    assert!(record_daily_bar(&mut subs, "A", bar(9, 9.0)));
    assert!(!record_daily_bar(&mut subs, "C", bar(9, 9.0)));
    assert_eq!(subs.len(), 2);
    assert_eq!(subs.key_at(0), "A");
    let a = subs.get("A").unwrap();
    assert_eq!(a.last_daily_bar.time, 9);
    assert_eq!(a.last_daily_bar.close, 9.0);
    assert_eq!(a.subscriber_uid, "a");
    assert_eq!(a.handlers[0].callback, 1);
    assert_eq!(subs.get("B").unwrap().last_daily_bar.time, 2);
}
