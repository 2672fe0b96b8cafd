//! Records, the heads of record stores, and the sync between two of them.

pub mod domain;
pub mod download;
pub mod encryption;
pub mod error;
pub mod laws;
pub mod status;
pub mod sync;
pub mod upload;
