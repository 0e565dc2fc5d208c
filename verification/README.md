# turbine

A multi-chain JSON-RPC proxy: requests for a chain are spread over its
upstream endpoints (round robin, by weight, or by latency), failed requests
are retried on other endpoints, the first attempt may be hedged, responses of
chosen methods are cached, and background health checks mark lagging
endpoints stale.

## Layout

- `src/` is the verified library. Its contracts are stated over plain
  mathematical models (`Seq`, `Map`, spec functions) and proved by Verus.
  - `config.rs`: the configuration model, defaults and validation.
  - `health/state.rs`: the health record of one endpoint (failures,
    cooldowns, throttling); `health/pool.rs`: the endpoint pool of a chain,
    endpoint selection and the active roster; `health/checker.rs`: reading
    health-check answers and applying a round of them.
  - `proxy/`: routing, request classification, authentication, the retry
    and hedging state machines, batch grouping, upstream error handling and
    WebSocket relay decisions.
  - `cache.rs`: cache keys, presets and method lifetimes; `metrics.rs`:
    per-chain counters; `lib.rs`: the `Turbine` builder.
- `app/` is the server around it: the command line, the configuration file,
  HTTP and WebSocket I/O, the response cache store, rate limiters, the
  health-check task, and latency-weighted selection (floating point).
- `tests/` exercises the library through its public API.
