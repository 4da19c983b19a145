//! The failures that the session layer reports to its caller.
//!
//! A cookie that cannot be read or does not authenticate is no failure: it
//! is treated as absent where it enters.

use vstd::prelude::*;

verus! {

/// A storage backend could not do its work: the store is unreachable, or a
/// response already carries a cookie that the session has to write.
pub struct BackendError {
    /// What went wrong, for a human reader.
    pub cause: String,
}

/// A backend was set up with a secret that no signing key can be derived
/// from.
pub struct ConfigurationError {
    /// What went wrong, for a human reader.
    pub cause: String,
}

impl BackendError {
    /// An error with this cause.
    pub fn new(cause: String) -> (e: Self)
        ensures
            e.cause == cause,
    {
        BackendError { cause }
    }

    /// The cause, as text.
    pub fn description(&self) -> (text: String)
        ensures
            text@ == self.cause@,
    {
        self.cause.clone()
    }
}

impl ConfigurationError {
    /// An error with this cause.
    pub fn new(cause: String) -> (e: Self)
        ensures
            e.cause == cause,
    {
        ConfigurationError { cause }
    }

    /// The cause, as text.
    pub fn description(&self) -> (text: String)
        ensures
            text@ == self.cause@,
    {
        self.cause.clone()
    }
}

} // verus!
