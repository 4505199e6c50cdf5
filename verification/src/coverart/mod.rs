//! Cover art kept on disk, and found online.
pub mod cache;
pub mod search;
