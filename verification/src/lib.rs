//! Verified core of a coordinate-reference-system library: the embedded
//! registry's binary format, grid-file framing, SHA-256 checksums, and the
//! operation metadata that drives operation selection.

pub mod text;
pub mod sha256;
pub mod operation;
pub mod grid;
pub mod error;
pub mod registry_format;
pub mod registry;
pub mod registry_build;
pub mod registry_encode;
