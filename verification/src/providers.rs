//! The issue-provider abstraction: the capability to confirm that a tracking
//! identifier exists in an external system, uniform over backends.

use vstd::prelude::*;

pub mod notion;

pub use notion::NotionProvider;

verus! {

/// An external issue tracker that can be asked whether an identifier exists.
///
/// `Ok(false)` means confirmed absence; every outcome that is neither a clean
/// affirmative nor a clean negative must surface as `Err`, so that a failure
/// is never mistaken for a missing issue. Implementations perform the actual
/// transport and are free to decompose the identifier to their own schema.
pub trait IssueProvider {
    type Error;

    /// Whether the issue `id` exists in the tracker.
    fn issue_exists(&self, id: &str) -> Result<bool, Self::Error>;
}

} // verus!
