//! Newsletter publishing with request deduplication, a transactional outbox
//! and a delivery worker with bounded retries.

pub mod authentication;
pub mod configuration;
pub mod domain;
pub mod guarantees;
pub mod idempotency;
pub mod newsletter;
pub mod response;
pub mod routes;
pub mod store;
