//! Ingestion core of a prediction-market scraper: endpoint discovery,
//! schema-tolerant payload parsing, retry decisions and first-seen upserts.

mod text;
pub mod json;
pub mod number;
pub mod market;
pub mod discovery;
pub mod fetch;
pub mod store;
pub mod metrics;
pub mod api;
