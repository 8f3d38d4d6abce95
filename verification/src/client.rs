//! The request side: the URLs of the benchmarks API, the splitting of long
//! history requests into windows, the assembly of history rows into bars, and the
//! cache of last bars that real-time subscriptions start from.

use vstd::prelude::*;
use vstd::string::StringExecFns;
use crate::API_ENDPOINT;
use crate::streaming::{SubscriptionTable, fresh_subscription, subscribe_on_stream};
use crate::table::{ChannelTable, has_key, inserted, lemma_lookup_inserted, lookup};
use crate::types::{Bar, SymbolInfo};

verus! {

// ---------------------------------------------------------------------------
// URLs
// ---------------------------------------------------------------------------

/// The character of decimal digit `d`.
pub open spec fn digit_char(d: nat) -> char {
    (48 + d) as char
}

/// The decimal notation of `n`, without sign or leading zeros.
pub open spec fn decimal_digits(n: nat) -> Seq<char>
    decreases n,
{
    if n < 10 {
        seq![digit_char(n)]
    } else {
        decimal_digits(n / 10).push(digit_char(n % 10))
    }
}

/// `n` in decimal notation.
///
/// Calls `ToString::to_string` on the `u64`, whose `Display` writes the decimal
/// digits of the number without sign, padding or leading zeros.
#[verifier::external_body]
fn decimal_string(n: u64) -> (text: String)
    ensures
        text@ == decimal_digits(n as nat),
{
    n.to_string()
}

/// The URL of the data feed's configuration.
pub fn config_url() -> (url: String)
    ensures
        url@ == API_ENDPOINT@ + "/config"@,
{
    let mut url = API_ENDPOINT.to_string();
    url.append("/config");
    url
}

/// The URL of a symbol search for `query`.
pub fn search_url(query: &str) -> (url: String)
    ensures
        url@ == API_ENDPOINT@ + "/search?query="@ + query@,
{
    let mut url = API_ENDPOINT.to_string();
    url.append("/search?query=");
    url.append(query);
    url
}

/// The URL that resolves the symbol `symbol_name`.
pub fn symbols_url(symbol_name: &str) -> (url: String)
    ensures
        url@ == API_ENDPOINT@ + "/symbols?symbol="@ + symbol_name@,
{
    let mut url = API_ENDPOINT.to_string();
    url.append("/symbols?symbol=");
    url.append(symbol_name);
    url
}

/// The URL of the bars of `ticker` at `resolution` from `from` to `to`
/// (seconds since the epoch).
pub fn history_url(ticker: &str, resolution: &str, from: u64, to: u64) -> (url: String)
    ensures
        url@ == API_ENDPOINT@ + "/history?symbol="@ + ticker@ + "&resolution="@ + resolution@
            + "&from="@ + decimal_digits(from as nat) + "&to="@ + decimal_digits(to as nat),
{
    let mut url = API_ENDPOINT.to_string();
    url.append("/history?symbol=");
    url.append(ticker);
    url.append("&resolution=");
    url.append(resolution);
    url.append("&from=");
    let from_text = decimal_string(from);
    url.append(from_text.as_str());
    url.append("&to=");
    let to_text = decimal_string(to);
    url.append(to_text.as_str());
    url
}

/// What `resolve_symbol` reports when it cannot resolve a symbol: whether the
/// request reached the service, or its answer could not be read.
pub fn resolve_error_message(fetched: bool) -> (message: &'static str)
    ensures
        fetched ==> message@ == "Cannot resolve symbol"@,
        !fetched ==> message@ == "Failed to fetch symbol data"@,
{
    if fetched {
        "Cannot resolve symbol"
    } else {
        "Failed to fetch symbol data"
    }
}

// ---------------------------------------------------------------------------
// History windows
// ---------------------------------------------------------------------------

/// The longest span of one history request: 365 days, in seconds.
pub const MAX_RANGE_SECS: u64 = 31_536_000;

/// The end of the window that starts at `from`: a year later, or `to` if sooner.
pub open spec fn window_end(from: int, to: int) -> int {
    if to <= from + MAX_RANGE_SECS {
        to
    } else {
        from + MAX_RANGE_SECS
    }
}

/// The windows that cover `from..to`: consecutive, each at most a year long.
pub open spec fn windows_spec(from: int, to: int) -> Seq<(int, int)>
    decreases to - from,
{
    if from < to {
        seq![(from, window_end(from, to))] + windows_spec(window_end(from, to), to)
    } else {
        Seq::empty()
    }
}

/// Every window start plus a year fits in a `u64`: the requests can be computed.
pub open spec fn windows_fit(from: int, to: int) -> bool
    decreases to - from,
{
    from < to ==> {
        &&& from + MAX_RANGE_SECS <= u64::MAX
        &&& windows_fit(window_end(from, to), to)
    }
}

/// The windows as integers.
pub open spec fn windows_view(windows: Seq<(u64, u64)>) -> Seq<(int, int)> {
    windows.map_values(|w: (u64, u64)| (w.0 as int, w.1 as int))
}

/// Splits the period `from..to` into windows of at most a year each, in order.
/// `None` where a window's end cannot be computed in a `u64`.
pub fn history_windows(from: u64, to: u64) -> (windows: Option<Vec<(u64, u64)>>)
    ensures
        windows is Some <==> windows_fit(from as int, to as int),
        windows matches Some(w) ==> windows_view(w@) == windows_spec(from as int, to as int),
        to as int + MAX_RANGE_SECS <= u64::MAX ==> windows is Some,
        windows matches Some(w) ==> {
            &&& (w@.len() > 0 <==> from < to)
            &&& from < to ==> w@[0].0 == from && w@.last().1 == to
            &&& forall|i: int| #![trigger w@[i]] 0 <= i < w@.len()
                ==> w@[i].0 < w@[i].1 && w@[i].1 <= w@[i].0 + MAX_RANGE_SECS
            &&& forall|i: int| #![trigger w@[i]] 0 <= i < w@.len()
                ==> w@[i].1 == to || w@[i].1 == w@[i].0 + MAX_RANGE_SECS
            &&& forall|i: int| #![trigger w@[i]] 0 <= i < w@.len() - 1 ==> w@[i].1 == w@[i + 1].0
        },
{
    proof {
        if to as int + MAX_RANGE_SECS <= u64::MAX {
            lemma_windows_fit_below(from as int, to as int);
        }
    }
    let result = collect_windows(from, to);
    proof {
        if result is Some {
            let w = result->0;
            let ws = windows_spec(from as int, to as int);
            assert forall|i: int| 0 <= i < w@.len() implies #[trigger] windows_view(w@)[i] == (w@[i].0 as int, w@[i].1 as int) by {}
            if from < to {
                lemma_windows_partition(from as int, to as int);
                assert(windows_view(w@)[0] == ws[0]);
                assert(windows_view(w@)[w@.len() - 1] == ws[ws.len() - 1]);
                assert forall|i: int| #![trigger w@[i]] 0 <= i < w@.len()
                    implies w@[i].0 < w@[i].1 && w@[i].1 <= w@[i].0 + MAX_RANGE_SECS
                        && (w@[i].1 == to || w@[i].1 == w@[i].0 + MAX_RANGE_SECS) by {
                    assert(windows_view(w@)[i] == ws[i]);
                }
                assert forall|i: int| #![trigger w@[i]] 0 <= i < w@.len() - 1 implies w@[i].1 == w@[i + 1].0 by {
                    assert(windows_view(w@)[i] == ws[i]);
                    assert(windows_view(w@)[i + 1] == ws[i + 1]);
                }
            } else {
                assert(ws.len() == 0);
                assert(windows_view(w@).len() == 0);
            }
        }
    }
    result
}

/// Where the end of the period plus a year fits in a `u64`, so does every window
/// start plus a year.
pub proof fn lemma_windows_fit_below(from: int, to: int)
    requires
        to + MAX_RANGE_SECS <= u64::MAX,
    ensures
        windows_fit(from, to),
    decreases to - from,
{
    if from < to {
        lemma_windows_fit_below(window_end(from, to), to);
    }
}

/// The windows of `from..to`, collected in order.
fn collect_windows(from: u64, to: u64) -> (windows: Option<Vec<(u64, u64)>>)
    ensures
        windows is Some <==> windows_fit(from as int, to as int),
        windows matches Some(w) ==> windows_view(w@) == windows_spec(from as int, to as int),
{
    let mut windows: Vec<(u64, u64)> = Vec::new();
    let mut current_from = from;
    while current_from < to
        invariant
            windows_spec(from as int, to as int)
                == windows_view(windows@) + windows_spec(current_from as int, to as int),
            windows_fit(from as int, to as int) == windows_fit(current_from as int, to as int),
        decreases to - current_from,
    {
        match current_from.checked_add(MAX_RANGE_SECS) {
            Some(year_later) => {
                let current_to = if to < year_later { to } else { year_later };
                let ghost before = windows@;
                windows.push((current_from, current_to));
                proof {
                    assert(windows_view(windows@) =~= windows_view(before).push(
                        (current_from as int, current_to as int),
                    ));
                    assert(windows_view(before) + windows_spec(current_from as int, to as int)
                        =~= windows_view(windows@) + windows_spec(current_to as int, to as int));
                }
                current_from = current_to;
            }
            None => {
                return None;
            }
        }
    }
    proof {
        assert(windows_view(windows@) + windows_spec(current_from as int, to as int)
            =~= windows_view(windows@));
    }
    Some(windows)
}

/// The windows of a period partition it: the first starts at `from`, the last
/// ends at `to`, each ends where the next starts, and each is nonempty and at
/// most a year long.
pub proof fn lemma_windows_partition(from: int, to: int)
    requires
        from < to,
    ensures
        windows_spec(from, to).len() > 0,
        windows_spec(from, to)[0].0 == from,
        windows_spec(from, to).last().1 == to,
        forall|i: int| #![trigger windows_spec(from, to)[i]]
            0 <= i < windows_spec(from, to).len() ==> {
                let w = windows_spec(from, to)[i];
                &&& w.0 < w.1 <= w.0 + MAX_RANGE_SECS
                &&& (w.1 == to || w.1 == w.0 + MAX_RANGE_SECS)
            },
        forall|i: int| #![trigger windows_spec(from, to)[i]]
            0 <= i < windows_spec(from, to).len() - 1
                ==> windows_spec(from, to)[i].1 == windows_spec(from, to)[i + 1].0,
    decreases to - from,
{
    let e = window_end(from, to);
    let w = windows_spec(from, to);
    if e < to {
        lemma_windows_partition(e, to);
        let rest = windows_spec(e, to);
        assert(w == seq![(from, e)] + rest);
        assert forall|i: int| 0 <= i < w.len() - 1 implies #[trigger] w[i].1 == w[i + 1].0 by {
            if i > 0 {
                assert(w[i] == rest[i - 1]);
                assert(w[i + 1] == rest[i]);
            }
        }
        assert forall|i: int| 0 <= i < w.len() implies {
            let wi = #[trigger] w[i];
            &&& wi.0 < wi.1 <= wi.0 + MAX_RANGE_SECS
            &&& (wi.1 == to || wi.1 == wi.0 + MAX_RANGE_SECS)
        } by {
            if i > 0 {
                assert(w[i] == rest[i - 1]);
            }
        }
    } else {
        assert(windows_spec(e, to) =~= Seq::<(int, int)>::empty());
        assert(w =~= seq![(from, to)]);
    }
}

/// A period takes as many requests as it has years, the last one counted whole
/// even where it is partial.
pub proof fn lemma_windows_count(from: int, to: int)
    requires
        from < to,
    ensures
        windows_spec(from, to).len() == (to - from - 1) / (MAX_RANGE_SECS as int) + 1,
    decreases to - from,
{
    let e = window_end(from, to);
    if e < to {
        lemma_windows_count(e, to);
        assert(windows_spec(from, to) == seq![(from, e)] + windows_spec(e, to));
    } else {
        assert(windows_spec(e, to) =~= Seq::<(int, int)>::empty());
    }
}

// ---------------------------------------------------------------------------
// History rows
// ---------------------------------------------------------------------------

/// Every row of the answer has its four prices, and every time in milliseconds
/// fits in a `u64`.
pub open spec fn history_rows_fit(times: Seq<u64>, lows: nat, highs: nat, opens: nat, closes: nat) -> bool {
    &&& lows >= times.len()
    &&& highs >= times.len()
    &&& opens >= times.len()
    &&& closes >= times.len()
    &&& forall|i: int| 0 <= i < times.len() ==> #[trigger] times[i] * 1000 <= u64::MAX
}

/// Row `i` of a history answer as a bar, its time turned into milliseconds.
pub open spec fn history_bar<P>(
    times: Seq<u64>,
    lows: Seq<P>,
    highs: Seq<P>,
    opens: Seq<P>,
    closes: Seq<P>,
    i: int,
) -> Bar<P> {
    Bar {
        time: (times[i] * 1000) as u64,
        low: lows[i],
        high: highs[i],
        open: opens[i],
        close: closes[i],
    }
}

/// Each bar of a history answer takes its prices from its own row: its low from
/// the low column, its high from the high column, its open and close from theirs,
/// and its time is the row's time in milliseconds.
pub proof fn lemma_history_bar_fields<P>(
    times: Seq<u64>,
    lows: Seq<P>,
    highs: Seq<P>,
    opens: Seq<P>,
    closes: Seq<P>,
    i: int,
)
    requires
        0 <= i < times.len(),
        times[i] * 1000 <= u64::MAX,
    ensures
        history_bar(times, lows, highs, opens, closes, i).time == times[i] * 1000,
        history_bar(times, lows, highs, opens, closes, i).low == lows[i],
        history_bar(times, lows, highs, opens, closes, i).high == highs[i],
        history_bar(times, lows, highs, opens, closes, i).open == opens[i],
        history_bar(times, lows, highs, opens, closes, i).close == closes[i],
{
}

/// Turns the columns of a history answer (times in seconds, then the low, high,
/// open and close prices) into bars, one per time, in order. `None` where a
/// price column is shorter than the times or a time in milliseconds overflows.
pub fn history_bars<P: Copy>(
    times: &Vec<u64>,
    lows: &Vec<P>,
    highs: &Vec<P>,
    opens: &Vec<P>,
    closes: &Vec<P>,
) -> (bars: Option<Vec<Bar<P>>>)
    ensures
        bars is Some <==> history_rows_fit(times@, lows@.len(), highs@.len(), opens@.len(), closes@.len()),
        bars matches Some(b) ==> {
            &&& b@.len() == times@.len()
            &&& forall|i: int| 0 <= i < times@.len()
                ==> #[trigger] b@[i] == history_bar(times@, lows@, highs@, opens@, closes@, i)
        },
        bars is Some <==> {
            &&& lows@.len() >= times@.len()
            &&& highs@.len() >= times@.len()
            &&& opens@.len() >= times@.len()
            &&& closes@.len() >= times@.len()
            &&& forall|i: int| 0 <= i < times@.len() ==> #[trigger] times@[i] * 1000 <= u64::MAX
        },
        bars matches Some(b) ==> forall|i: int| #![trigger b@[i]] 0 <= i < times@.len() ==> {
            &&& b@[i].time == times@[i] * 1000
            &&& b@[i].low == lows@[i]
            &&& b@[i].high == highs@[i]
            &&& b@[i].open == opens@[i]
            &&& b@[i].close == closes@[i]
        },
{
    let n = times.len();
    if lows.len() < n || highs.len() < n || opens.len() < n || closes.len() < n {
        return None;
    }
    let mut bars: Vec<Bar<P>> = Vec::new();
    let mut i: usize = 0;
    while i < n
        invariant
            n == times@.len(),
            i <= n,
            lows@.len() >= n,
            highs@.len() >= n,
            opens@.len() >= n,
            closes@.len() >= n,
            bars@.len() == i,
            forall|j: int| 0 <= j < i ==> #[trigger] times@[j] * 1000 <= u64::MAX,
            forall|j: int| 0 <= j < i
                ==> #[trigger] bars@[j] == history_bar(times@, lows@, highs@, opens@, closes@, j),
        decreases n - i,
    {
        let time = times[i];
        if time > u64::MAX / 1000 {
            return None;
        }
        bars.push(Bar { time: time * 1000, low: lows[i], high: highs[i], open: opens[i], close: closes[i] });
        i = i + 1;
    }
    Some(bars)
}

// ---------------------------------------------------------------------------
// The cache of last bars
// ---------------------------------------------------------------------------

/// The last bar of each symbol, as history requests found it.
pub type LastBarsCache<P> = ChannelTable<Bar<P>>;

/// Ends a history request: on the first request for a symbol that found bars,
/// the last of them is cached for the ticker. Says whether there was no data.
pub fn cache_last_bar<P: Copy>(
    cache: &mut LastBarsCache<P>,
    ticker: &str,
    bars: &Vec<Bar<P>>,
    first_data_request: bool,
) -> (no_data: bool)
    ensures
        no_data == (bars@.len() == 0),
        first_data_request && bars@.len() > 0 ==> final(cache)@ == inserted(old(cache)@, ticker@, bars@.last()),
        !(first_data_request && bars@.len() > 0) ==> final(cache)@ == old(cache)@,
        first_data_request && bars@.len() > 0 ==> {
            &&& lookup(final(cache)@, ticker@) == Some(bars@[bars@.len() - 1])
            &&& forall|other: Seq<char>| other != ticker@
                ==> #[trigger] lookup(final(cache)@, other) == lookup(old(cache)@, other)
        },
{
    let n = bars.len();
    if first_data_request && n > 0 {
        let key = ticker.to_string();
        let ghost k = key@;
        cache.insert(key, bars[n - 1]);
        proof {
            lemma_lookup_inserted(old(cache)@, k, bars@[n - 1], k);
            assert forall|other: Seq<char>| other != k
                implies #[trigger] lookup(cache@, other) == lookup(old(cache)@, other) by {
                lemma_lookup_inserted(old(cache)@, k, bars@[n - 1], other);
            }
        }
    }
    n == 0
}

/// Subscribes `subscriber_uid` to the real-time bars of `symbol_info`, starting
/// from the cached last bar of its ticker; says whether there was one. Without a
/// cached bar nothing is subscribed.
pub fn subscribe_bars_from_cache<P: Copy, C>(
    cache: &LastBarsCache<P>,
    subscriptions: &mut SubscriptionTable<P, C>,
    symbol_info: &SymbolInfo,
    resolution: String,
    subscriber_uid: String,
    callback: C,
) -> (subscribed: bool)
    ensures
        subscribed == has_key(cache@, symbol_info.ticker@),
        subscribed ==> exists|sub|
            fresh_subscription(
                sub,
                subscriber_uid@,
                resolution@,
                lookup(cache@, symbol_info.ticker@)->0,
                callback,
            ) && final(subscriptions)@ == inserted(old(subscriptions)@, symbol_info.ticker@, sub),
        !subscribed ==> final(subscriptions)@ == old(subscriptions)@,
        subscribed ==> (lookup(final(subscriptions)@, symbol_info.ticker@) matches Some(sub) && {
            &&& lookup(cache@, symbol_info.ticker@) == Some(sub.last_daily_bar)
            &&& sub.subscriber_uid@ == subscriber_uid@
            &&& sub.resolution@ == resolution@
            &&& sub.handlers@.len() == 1
            &&& sub.handlers@[0].id@ == subscriber_uid@
            &&& sub.handlers@[0].callback == callback
        }),
{
    match cache.get(symbol_info.ticker.as_str()) {
        Some(bar) => {
            subscribe_on_stream(symbol_info.ticker.clone(), resolution, subscriber_uid, *bar, subscriptions, callback);
            true
        }
        None => false,
    }
}

} // verus!
