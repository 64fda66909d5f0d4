//! A TCP reverse proxy with a live content-filtering plane: the verified core.
//!
//! The data plane screens client-to-upstream chunks against per-service rule
//! snapshots; the control plane keeps the rule table and emits update messages.
pub mod auth;
pub mod codec;
pub mod matcher;
pub mod proxy;
pub mod rule;
pub mod service;
pub mod snapshot;
pub mod store;
