//! The library's error type.
use vstd::prelude::*;

verus! {

/// What can go wrong while planning migration work.
#[derive(Clone, Debug, PartialEq, Eq)]
pub enum Error {
    /// An explicit version is already the start of an existing entry's name.
    DuplicateMigrationVersion(String),
    /// Every suffix of this second's timestamp is taken.
    TooManyMigrations(String),
    /// No ancestor of this directory holds the marker file.
    ProjectRootNotFound(String),
    /// A version that was just reverted has no entry in the store any more.
    UnknownMigrationVersion(String),
}

} // verus!
