//! The traits that a handler needs in scope.

pub use crate::SessionRequestExt;
