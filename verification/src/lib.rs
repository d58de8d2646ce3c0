//! A load balancer that spreads client connections over a pool of backend
//! servers, with round-robin, weighted round-robin and least-connections
//! selection, path-based routing rules and health tracking.
pub mod config;
pub mod lb;
pub mod text;
