//! Availability probe core: submission tracking, verification state machine,
//! minute-bucket aggregation and metrics folding, persisted in a sled store.

pub mod client;
pub mod codec;
pub mod config;
pub mod metrics;
pub mod model;
pub mod record;
pub mod sledb;
pub mod time;
