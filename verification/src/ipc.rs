//! Failures cross the application boundary as codes, never as prose or raw diagnostics.
use vstd::prelude::*;
use vstd::std_specs::convert::FromSpecImpl;

verus! {

pub struct CommandError {
    pub code: String,
}

impl From<String> for CommandError {
    fn from(code: String) -> (r: Self) {
        CommandError { code }
    }
}

impl FromSpecImpl<String> for CommandError {
    open spec fn obeys_from_spec() -> bool {
        true
    }

    open spec fn from_spec(code: String) -> Self {
        CommandError { code }
    }
}

/// The request to restore a backup file, as the interface sends it.
pub struct RestoreBackupRequest {
    pub path: String,
    pub fingerprint: String,
    pub source_fingerprint: String,
    pub merge: bool,
}

} // verus!
