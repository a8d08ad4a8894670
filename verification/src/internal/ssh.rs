//! `known_hosts` host-pattern matching of the SSH transport.

pub use crate::ssh::glob::glob_match;
pub use crate::ssh::hosts::{
    parse_pattern_host_port, host_matches_patterns, host_matches_hashed, constant_time_eq,
};
