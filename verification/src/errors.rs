//! Run-level errors: failures that halt the run before or between
//! phases, as opposed to a single mod's failure, which stays inside its
//! task.  Authentication failure carries its meaning as an explicit
//! tag — it invalidates the cached credentials — so callers match on it
//! instead of inspecting error text.

use vstd::prelude::*;

use crate::secret::SecretStoreError;

verus! {

/// An error that halts the run.
#[derive(Debug)]
pub enum RunError {
    /// The stored secret is invalid or expired: the cached credentials
    /// must be deleted and the user signed in again.
    Auth,
    /// Manifest or filesystem I/O failed outside a single mod's install
    /// step; the run cannot safely continue.  The text says how.
    Storage(String),
    /// The split secret could not be read or written; recoverable by
    /// prompting for credentials again.
    SecretStore(SecretStoreError),
}

impl RunError {
    /// Whether this failure invalidates the cached credentials: exactly
    /// the authentication failure does, and it alone obliges the caller
    /// to delete the stored secret before the next run.
    pub fn invalidates_credentials(&self) -> (b: bool)
        ensures
            b == (self is Auth),
    {
        match self {
            RunError::Auth => true,
            _ => false,
        }
    }

    /// A short description for the user.
    pub fn message<'a>(&'a self) -> (m: &'a str)
        ensures
            match self {
                RunError::Auth => m@ == "authentication failed, please sign in again"@,
                RunError::Storage(s) => m@ == s@,
                RunError::SecretStore(SecretStoreError::NotFound) => m@ == "no stored secret"@,
                RunError::SecretStore(SecretStoreError::MissingChunk) => m@
                    == "stored secret is missing a chunk"@,
            },
    {
        match self {
            RunError::Auth => "authentication failed, please sign in again",
            RunError::Storage(s) => s.as_str(),
            RunError::SecretStore(e) => e.message(),
        }
    }
}

} // verus!
