//! A verified core for a single-tenant HTTP reverse proxy that maps a fixed
//! set of public calendar paths onto private upstream collections, injecting
//! per-route Basic credentials.
//!
//! The library holds the route table and its validation, the path matching
//! rule, outbound URI construction, hop-by-hop header filtering and
//! credential/forwarding-header injection. The surrounding HTTP transport is
//! an unverified collaborator that exchanges plain values with this crate.

pub mod config;
pub mod proxy;
pub mod text;
