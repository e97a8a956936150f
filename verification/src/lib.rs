//! SWIR, a sidecar for event-driven services: configuration, routing tables,
//! subscription bookkeeping, request decisions and name handling.
pub mod text;
pub mod structs;
pub mod config;
pub mod subscriptions;
pub mod channels;
pub mod frontend;
pub mod discovery;
pub mod invocation;
pub mod brokers;
pub mod persistence;
pub mod ordering;
pub mod metrics;
pub mod rest_client;
