//! The 64-bit ARM target.

pub mod armop;
