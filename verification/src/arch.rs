//! Target architectures.

pub mod arm64;
