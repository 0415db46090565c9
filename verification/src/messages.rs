//! Message schemas built from the primitive operations.
pub mod common;
pub mod metadata;
