# pyth-benchmark-rs

A client for the Pyth Network benchmarks service: historical OHLC bars over
HTTP, and real-time daily bars built from the price stream.

- `src/` is the verified library (Verus): price bars and request periods
  (`types`), the keyed table that holds subscriptions and cached bars
  (`table`), the daily bar arithmetic and the subscription registry
  (`streaming`), the framing of stream chunks into lines (`framing`), the
  reconnection backoff (`reconnect`), and the request URLs, history windows and
  row assembly (`client`).
- `app/` is the asynchronous shell around it: HTTP with reqwest, JSON with
  serde, channels and sleeping with tokio, floating-point bar updates, and the
  example program.
- `tests/` runs the library on concrete values.
