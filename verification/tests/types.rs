use pyth_benchmark_rs::types::{Bar, PeriodParams, SymbolInfo, DAY_SECS};

#[test]
fn test_bar_creation() {
    let bar = Bar {
        time: 1_717_000_000,
        open: 100.0,
        high: 105.0,
        low: 95.0,
        close: 102.0,
    };

    assert_eq!(bar.time, 1_717_000_000);
    assert_eq!(bar.open, 100.0);
    assert_eq!(bar.high, 105.0);
    assert_eq!(bar.low, 95.0);
    assert_eq!(bar.close, 102.0);
}

#[test]
fn test_symbol_info_creation() {
    let symbol = SymbolInfo {
        ticker: "BTC/USD".to_string(),
    };

    assert_eq!(symbol.ticker, "BTC/USD");
}

#[test]
fn bar_new_puts_each_price_in_its_field() {
    let bar = Bar::new(1_717_000_000_000, 1.0, 4.0, 0.5, 2.0);
    assert_eq!(bar.time, 1_717_000_000_000);
    assert_eq!(bar.open, 1.0);
    assert_eq!(bar.high, 4.0);
    assert_eq!(bar.low, 0.5);
    assert_eq!(bar.close, 2.0);
}

#[test]
fn symbol_info_new_keeps_the_ticker() {
    let symbol = SymbolInfo::new("Crypto.ETH/USD");
    assert_eq!(symbol.ticker, "Crypto.ETH/USD");
}

#[test]
fn period_params_new_keeps_its_fields() {
    let params = PeriodParams::new(10, 20, true);
    assert_eq!(params.from, 10);
    assert_eq!(params.to, 20);
    assert!(params.first_data_request);
}

#[test]
fn last_days_from_reaches_back_whole_days() {
    let params = PeriodParams::last_days_from(1_717_000_000, 30, false);
    assert_eq!(params.to, 1_717_000_000);
    assert_eq!(params.from, 1_717_000_000 - 30 * 86_400);
    assert!(!params.first_data_request);
    let none = PeriodParams::last_days_from(1_717_000_000, 0, true);
    assert_eq!(none.from, none.to);
}

#[test]
fn last_days_spans_the_days_up_to_now() {
    let params = PeriodParams::last_days(30, true).expect("the clock is after the epoch");
    assert_eq!(params.to - params.from, 30 * DAY_SECS);
    assert!(params.first_data_request);
    assert!(params.to > 1_700_000_000);
}

#[test]
fn last_days_before_the_epoch_is_refused() {
    assert!(PeriodParams::last_days(u64::MAX / DAY_SECS, true).is_none());
    assert!(PeriodParams::last_days(u64::MAX, false).is_none());
}

#[test]
fn last_days_at_decides_from_the_clock_reading() {
    let params = PeriodParams::last_days_at(Some(1_717_000_000), 30, true).unwrap();
    assert_eq!((params.from, params.to), (1_717_000_000 - 30 * 86_400, 1_717_000_000));
    assert!(params.first_data_request);
    assert!(PeriodParams::last_days_at(None, 0, true).is_none());
    assert!(PeriodParams::last_days_at(Some(86_399), 1, false).is_none());
    let exact = PeriodParams::last_days_at(Some(86_400), 1, false).unwrap();
    assert_eq!((exact.from, exact.to), (0, 86_400));
}
