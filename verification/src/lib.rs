//! Verified core of a small order-management backend: token-based
//! authentication, per-user order ownership, and paginated CRUD over an
//! in-memory order store.  The HTTP layer and process wiring live outside
//! this crate and call into these functions with plain values.

pub mod auth;
pub mod config;
pub mod error;
pub mod orders;
pub mod store;
