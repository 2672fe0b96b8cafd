//! Packfiles: a run of history records as one compressed, encrypted bundle, and the manifest record
//! that describes it.

pub mod batch;
pub mod bundle_laws;
pub mod codec;
pub mod download;
pub mod laws;
pub mod many_laws;
pub mod record;
pub mod upload;
pub mod wire;
