//! A registry of proxy routes: which backend port a domain is forwarded to,
//! and whether that route is enabled.
//!
//! The durable store is the authority. The in-memory index mirrors it and
//! serves every listing. Each mutation is written to the store first; its
//! answer is then handed to this library, which decides what the caller is
//! told and how the index changes.

pub mod record;
pub mod error;
pub mod index;
pub mod store;
pub mod registry;
pub mod config;
pub mod consistency;
