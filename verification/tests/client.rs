use pyth_benchmark_rs::client::{
    cache_last_bar, config_url, history_bars, history_url, history_windows, resolve_error_message, search_url,
    subscribe_bars_from_cache, symbols_url, LastBarsCache, MAX_RANGE_SECS,
};
use pyth_benchmark_rs::streaming::SubscriptionTable;
use pyth_benchmark_rs::table::ChannelTable;
use pyth_benchmark_rs::types::{Bar, SymbolInfo};
use pyth_benchmark_rs::API_ENDPOINT;

#[test]
fn urls_extend_the_api_endpoint() {
    assert_eq!(config_url(), format!("{}/config", API_ENDPOINT));
    assert_eq!(search_url("BTC"), format!("{}/search?query=BTC", API_ENDPOINT));
    assert_eq!(symbols_url("Crypto.BTC/USD"), format!("{}/symbols?symbol=Crypto.BTC/USD", API_ENDPOINT));
    assert_eq!(
        history_url("Crypto.ETH/USD", "1D", 1_715_272_000, 0),
        "https://benchmarks.pyth.network/v1/shims/tradingview/history?symbol=Crypto.ETH/USD&resolution=1D&from=1715272000&to=0"
    );
    assert_eq!(
        history_url("X", "60", u64::MAX, 10),
        format!("{}/history?symbol=X&resolution=60&from=18446744073709551615&to=10", API_ENDPOINT)
    );
}

#[test]
fn resolve_errors_say_what_failed() {
    assert_eq!(resolve_error_message(true), "Cannot resolve symbol");
    assert_eq!(resolve_error_message(false), "Failed to fetch symbol data");
}

#[test]
fn a_short_period_is_one_window() {
    assert_eq!(history_windows(100, 200), Some(vec![(100, 200)]));
    assert_eq!(history_windows(200, 200), Some(vec![]));
    assert_eq!(history_windows(300, 200), Some(vec![]));
}

#[test]
fn a_long_period_is_split_into_years() {
    let from = 1_600_000_000;
    let to = from + 2 * MAX_RANGE_SECS + 5;
    let windows = history_windows(from, to).unwrap();
    assert_eq!(
        windows,
        vec![
            (from, from + MAX_RANGE_SECS),
            (from + MAX_RANGE_SECS, from + 2 * MAX_RANGE_SECS),
            (from + 2 * MAX_RANGE_SECS, to),
        ]
    );
}

#[test]
fn windows_that_overflow_are_refused() {
    assert_eq!(history_windows(u64::MAX - 10, u64::MAX), None);
    assert_eq!(history_windows(u64::MAX - MAX_RANGE_SECS - 1, u64::MAX), None);
    assert_eq!(
        history_windows(u64::MAX - MAX_RANGE_SECS, u64::MAX),
        Some(vec![(u64::MAX - MAX_RANGE_SECS, u64::MAX)])
    );
}

#[test]
fn history_rows_become_bars_in_milliseconds() {
    let bars = history_bars(&vec![10, 20], &vec![1.0, 2.0], &vec![3.0, 4.0], &vec![1.5, 2.5], &vec![2.0, 3.0]).unwrap();
    assert_eq!(bars.len(), 2);
    assert_eq!(bars[0].time, 10_000);
    assert_eq!((bars[0].low, bars[0].high, bars[0].open, bars[0].close), (1.0, 3.0, 1.5, 2.0));
    assert_eq!(bars[1].time, 20_000);
    assert_eq!((bars[1].low, bars[1].high, bars[1].open, bars[1].close), (2.0, 4.0, 2.5, 3.0));
    let empty: Vec<f64> = vec![];
    assert_eq!(history_bars(&vec![], &empty, &empty, &empty, &empty).unwrap().len(), 0);
}

#[test]
fn history_rows_with_missing_prices_are_refused() {
    assert!(history_bars(&vec![10, 20], &vec![1.0], &vec![3.0, 4.0], &vec![1.5, 2.5], &vec![2.0, 3.0]).is_none());
    assert!(history_bars(&vec![10, 20], &vec![1.0, 2.0], &vec![3.0, 4.0], &vec![1.5, 2.5], &vec![2.0]).is_none());
    assert!(history_bars(&vec![u64::MAX / 1000 + 1], &vec![1.0], &vec![1.0], &vec![1.0], &vec![1.0]).is_none());
    assert!(history_bars(&vec![u64::MAX / 1000], &vec![1.0], &vec![1.0], &vec![1.0], &vec![1.0]).is_some());
}

fn bar(time: u64, close: f64) -> Bar<f64> {
    Bar { time, low: close, high: close, open: close, close }
}

#[test]
fn the_first_request_caches_the_last_bar() {
    let mut cache: LastBarsCache<f64> = ChannelTable::new();
    let bars = vec![bar(1, 1.0), bar(2, 2.0), bar(3, 3.0)];
    assert!(!cache_last_bar(&mut cache, "BTC/USD", &bars, true));
    assert_eq!(cache.get("BTC/USD").unwrap().time, 3);
    assert!(!cache_last_bar(&mut cache, "BTC/USD", &vec![bar(9, 9.0)], false));
    assert_eq!(cache.get("BTC/USD").unwrap().time, 3);
    assert!(cache_last_bar(&mut cache, "ETH/USD", &vec![], true));
    assert!(cache.get("ETH/USD").is_none());
}

#[test]
fn subscribing_needs_a_cached_bar() {
    let mut cache: LastBarsCache<f64> = ChannelTable::new();
    let mut subs: SubscriptionTable<f64, u8> = ChannelTable::new();
    let symbol = SymbolInfo::new("BTC/USD");
    assert!(!subscribe_bars_from_cache(&cache, &mut subs, &symbol, "1D".to_string(), "s".to_string(), 1));
    assert_eq!(subs.len(), 0);
    cache.insert("BTC/USD".to_string(), bar(5, 50.0));
    assert!(subscribe_bars_from_cache(&cache, &mut subs, &symbol, "1D".to_string(), "s".to_string(), 1));
    let sub = subs.get("BTC/USD").unwrap();
    assert_eq!(sub.last_daily_bar.time, 5);
    assert_eq!(sub.handlers[0].id, "s");
}
