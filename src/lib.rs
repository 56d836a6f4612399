//! A TCP port-forwarding engine: forwarding rules and their validation,
//! the byte relay between a source connection and its targets, the
//! per-listener connection table with graceful shutdown, and the
//! throughput meter that observes the relays.
pub mod config;
pub mod conn_handle;
pub mod endpoint;
pub mod meter;
pub mod relay;
pub mod text;
