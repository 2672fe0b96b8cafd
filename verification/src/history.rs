//! The history store.

use vstd::prelude::*;

verus! {

/// Tag under which history records are stored.
pub const HISTORY_TAG: &'static str = "history";

} // verus!
