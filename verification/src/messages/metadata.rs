//! The metadata request and its response.
pub mod v0;
