//! Endpoint health: per-endpoint state, the endpoint pool, and the
//! handling of background health-check results.
pub mod checker;
pub mod pool;
pub mod state;
