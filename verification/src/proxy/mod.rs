//! Request handling: routing, forwarding decisions, retries and hedging.
pub mod auth;
pub mod batch;
pub mod forwarder;
pub mod hedge;
pub mod request;
pub mod retry;
pub mod router;
pub mod ws;
