//! Streaming and historical OHLC price bars from the Pyth Network benchmarks
//! service: the bar arithmetic, the subscription registry, the stream framing and
//! the reconnection policy, each with its contract.

pub mod client;
pub mod framing;
pub mod reconnect;
pub mod streaming;
pub mod table;
pub mod types;

use vstd::prelude::*;

verus! {

/// The default Pyth Network streaming URL.
pub const STREAMING_URL: &'static str = "https://benchmarks.pyth.network/v1/shims/tradingview/streaming";

/// The default Pyth Network API endpoint.
pub const API_ENDPOINT: &'static str = "https://benchmarks.pyth.network/v1/shims/tradingview";

} // verus!
