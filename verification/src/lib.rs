//! A node runtime version manager library: resolving symbolic version
//! requests against a release index, staging downloaded archives into an
//! in-memory representation, and tracking installed versions in a registry.

pub mod archive;
pub mod args;
pub mod config;
pub mod helpers;
pub mod index;
pub mod installer;
pub mod links;
pub mod versions;
