//! Monitoring core for a fleet of blockchain RPC endpoints: the observation
//! model, the cross-endpoint consensus engine, the decisions of the tiered
//! fetch client, and the record logic of the time-series store.
pub mod config;
pub mod consensus;
pub mod fetch;
pub mod models;
pub mod store;
pub mod text;
