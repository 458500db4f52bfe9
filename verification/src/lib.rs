//! Index service core for federated chat homeservers.
//!
//! The library holds the verified logic of the index: domain validation and
//! extraction, the server repository with filtered reads, the TTL cache model
//! with glob invalidation, the read path that composes the two, the
//! federation discovery engine, and the rate limiter.

pub mod cache;
pub mod domain;
pub mod federation_discovery;
pub mod metrics;
pub mod models;
pub mod rate_limit;
pub mod repo;
pub mod routes;
pub mod services;
pub mod strutil;

pub use domain::is_valid_domain;
