//! Record sync and packfiles: which records two stores owe each other, in which order they move,
//! and how a run of history is packed into one encrypted bundle.

pub mod history;
pub mod order;
pub mod packfile;
pub mod record;
pub mod text;
