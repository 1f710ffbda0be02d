//! The middlewares, each as the decisions that it takes.

pub mod error_handling;
pub mod event_verifier;
pub mod logger;
pub mod metrics;
pub mod nip09_deletion;
pub mod nip40_expiration;
pub mod nip42_auth;
pub mod nip70_protected;
pub mod rate_limit;
