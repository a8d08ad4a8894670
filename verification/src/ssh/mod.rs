//! The SSH transport's host-key trust logic: `known_hosts` pattern
//! matching, hashed host names, the trust decision over a
//! `known_hosts` file or a pinned fingerprint, and the connection
//! settings.

pub mod glob;
pub mod hosts;
pub mod config;
pub mod trust;
pub mod session;
