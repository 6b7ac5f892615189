//! Aggregated GitHub statistics for one user, with per-client rate limiting.
pub mod text;
pub mod types;
pub mod validation;
pub mod processor;
pub mod github;
pub mod rate_limit;
pub mod response;
pub mod service;
