//! A minimal package-manager client library: a semantic-version range
//! matcher and a dependency-graph resolver, together with the bookkeeping
//! for a sequential install pipeline.
//!
//! All network and filesystem work is left to the caller; the library
//! resolves versions and dependency graphs over plain in-memory data.

pub mod errors;
pub mod install;
pub mod matcher;
pub mod query;
pub mod resolver;
pub mod semver;
pub mod types;
