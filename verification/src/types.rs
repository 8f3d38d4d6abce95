//! The plain data of the library: price bars, symbols and request periods.

use vstd::prelude::*;

verus! {

/// A single OHLC bar: the prices of one period and the time at which it opened.
///
/// The price type is a parameter: the bar arithmetic of this library only moves
/// prices around, it never compares them, so it holds for any price type.
#[derive(Clone, Copy, Debug)]
pub struct Bar<P> {
    /// Timestamp in milliseconds since the Unix epoch.
    pub time: u64,
    /// Lowest price during the period.
    pub low: P,
    /// Highest price during the period.
    pub high: P,
    /// Opening price of the period.
    pub open: P,
    /// Closing price of the period.
    pub close: P,
}

impl<P> Bar<P> {
    /// Creates a bar from its time and its four prices.
    pub fn new(time: u64, open: P, high: P, low: P, close: P) -> (bar: Self)
        ensures
            bar.time == time,
            bar.open == open,
            bar.high == high,
            bar.low == low,
            bar.close == close,
    {
        Bar { time, low, high, open, close }
    }
}

/// A bar in which every price is `price`: the first bar of a period.
pub open spec fn flat_bar<P>(time: u64, price: P) -> Bar<P> {
    Bar { time, low: price, high: price, open: price, close: price }
}

/// Information about a trading symbol.
#[derive(Clone, Debug)]
pub struct SymbolInfo {
    /// The symbol ticker (e.g. "BTC/USD", "Crypto.ETH/USD").
    pub ticker: String,
}

impl SymbolInfo {
    /// Creates a symbol from its ticker.
    pub fn new(ticker: &str) -> (info: Self)
        ensures
            info.ticker@ == ticker@,
    {
        SymbolInfo { ticker: ticker.to_string() }
    }
}

/// Seconds in one day.
pub const DAY_SECS: u64 = 86_400;

/// Parameters for requesting historical bar data.
#[derive(Clone, Copy, Debug)]
pub struct PeriodParams {
    /// Start timestamp in seconds since the Unix epoch.
    pub from: u64,
    /// End timestamp in seconds since the Unix epoch.
    pub to: u64,
    /// Whether this is the first data request for this symbol.
    pub first_data_request: bool,
}

/// The seconds since the Unix epoch that the system clock shows, or `None` where
/// the clock stands before the epoch.
///
/// Calls `std::time::SystemTime::now` and `SystemTime::duration_since(UNIX_EPOCH)`.
/// The value depends on the clock, so nothing is stated of it.
#[verifier::external_body]
fn unix_now_secs() -> (now: Option<u64>) {
    match std::time::SystemTime::now().duration_since(std::time::UNIX_EPOCH) {
        Ok(elapsed) => Some(elapsed.as_secs()),
        Err(_) => None,
    }
}

impl PeriodParams {
    /// Creates period parameters from their three fields.
    pub fn new(from: u64, to: u64, first_data_request: bool) -> (params: Self)
        ensures
            params.from == from,
            params.to == to,
            params.first_data_request == first_data_request,
    {
        PeriodParams { from, to, first_data_request }
    }

    /// The last `days` whole days that end at `now` (seconds since the epoch).
    pub fn last_days_from(now: u64, days: u64, first_data_request: bool) -> (params: Self)
        requires
            days * DAY_SECS <= now,
        ensures
            params.to == now,
            params.from == now - days * DAY_SECS,
            params.first_data_request == first_data_request,
    {
        PeriodParams { from: now - days * DAY_SECS, to: now, first_data_request }
    }

    /// The last `days` whole days up to the clock reading `now` (seconds since the
    /// epoch, `None` for a clock before the epoch): `None` where there is no
    /// reading or `days` reach back beyond the epoch.
    pub fn last_days_at(now: Option<u64>, days: u64, first_data_request: bool) -> (params: Option<Self>)
        ensures
            params is Some <==> (now matches Some(n) && days * DAY_SECS <= n),
            params matches Some(p) ==> {
                &&& p.to == now->0
                &&& p.from == now->0 - days * DAY_SECS
                &&& p.first_data_request == first_data_request
            },
    {
        match now {
            Some(now) => {
                if days <= now / DAY_SECS {
                    assert(days * DAY_SECS <= now) by (nonlinear_arith)
                        requires days <= now / DAY_SECS;
                    Some(Self::last_days_from(now, days, first_data_request))
                } else {
                    assert(days * DAY_SECS > now) by (nonlinear_arith)
                        requires days > now / DAY_SECS;
                    None
                }
            }
            None => None,
        }
    }

    /// The last `days` whole days up to the current time of the system clock.
    ///
    /// `None` where the clock stands before the Unix epoch or `days` reach back
    /// beyond it.
    pub fn last_days(days: u64, first_data_request: bool) -> (params: Option<Self>)
        ensures
            days > u64::MAX / DAY_SECS ==> params is None,
            params matches Some(p) ==> {
                &&& p.from + days * DAY_SECS == p.to
                &&& p.first_data_request == first_data_request
            },
    {
        let now = unix_now_secs();
        proof {
            if days > u64::MAX / DAY_SECS {
                assert(days * DAY_SECS > u64::MAX) by (nonlinear_arith)
                    requires days > u64::MAX / DAY_SECS;
            }
        }
        Self::last_days_at(now, days, first_data_request)
    }
}

} // verus!
