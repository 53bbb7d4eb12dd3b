//! Deterministic directory listings folded into one running SHA-256 digest.

pub mod digest;
pub mod listing;
pub mod runconfig;
pub mod simpledir;
pub mod walk;
