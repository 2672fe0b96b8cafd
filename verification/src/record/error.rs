//! Why a sync fails.

use vstd::prelude::*;

use crate::text::{quoted, str_debug};

verus! {

/// Why a sync failed.
#[derive(Clone, Debug, PartialEq, Eq)]
pub enum SyncError {
    /// The local store is ahead of the remote, but for another host.
    LocalAheadOtherHost,
    /// The local store could not be read or written.
    LocalStoreError { msg: String },
    /// The sync was asked for something that makes no sense.
    SyncLogicError { msg: String },
    /// The sync could not be set up.
    OperationalError { msg: String },
    /// The server refused a request, or it did not get there.
    RemoteRequestError { msg: String },
    /// The local key does not open what is on the server.
    WrongKey,
}

impl SyncError {
    /// The message, as a value.
    pub open spec fn text(self) -> Seq<char> {
        match self {
            SyncError::LocalAheadOtherHost => LOCAL_AHEAD@,
            SyncError::LocalStoreError { msg } => "an issue with the local database occurred: "@
                + str_debug(msg@),
            SyncError::SyncLogicError { msg } => "something has gone wrong with the sync logic: "@
                + str_debug(msg@),
            SyncError::OperationalError { msg } => "operational error: "@ + str_debug(msg@),
            SyncError::RemoteRequestError { msg } => "a request to the sync server failed: "@
                + str_debug(msg@),
            SyncError::WrongKey => WRONG_KEY@,
        }
    }

    /// The message that says what went wrong.
    pub fn message(&self) -> (text: String)
        ensures
            text@ == self.text(),
    {
        match self {
            SyncError::LocalAheadOtherHost => LOCAL_AHEAD.to_owned(),
            SyncError::LocalStoreError { msg } => "an issue with the local database occurred: ".to_owned().concat(
                quoted(msg.as_str()).as_str(),
            ),
            SyncError::SyncLogicError { msg } => "something has gone wrong with the sync logic: ".to_owned().concat(
                quoted(msg.as_str()).as_str(),
            ),
            SyncError::OperationalError { msg } => "operational error: ".to_owned().concat(
                quoted(msg.as_str()).as_str(),
            ),
            SyncError::RemoteRequestError { msg } => "a request to the sync server failed: ".to_owned().concat(
                quoted(msg.as_str()).as_str(),
            ),
            SyncError::WrongKey => WRONG_KEY.to_owned(),
        }
    }
}

/// What is said where the local store is ahead for another host.
pub const LOCAL_AHEAD: &'static str =
    "the local store is ahead of the remote, but for another host. has remote lost data?";

/// What is said where the local key is not the one that the data was encrypted with.
pub const WRONG_KEY: &'static str =
    "the encryption key on this machine does not match the data on the server. \
     this usually means a new machine was set up without copying the existing key. \
     to fix: run `atuin key` on a machine that already syncs correctly, then run \
     `atuin store rekey <key>` on this machine with the value from the other machine";

} // verus!
