//! The error kinds a storage call can report.

use vstd::prelude::*;

verus! {

/// Why a storage operation failed.
///
/// Every failure of the adapter is one of these kinds; the engine sees
/// them as a single storage-error variant with a human-readable cause.
#[derive(Clone, Copy, PartialEq, Eq, Structural, Debug)]
pub enum StorageError {
    /// A table, channel or message that the call requires does not exist.
    NotFound,
    /// A row key is not the decimal form of a message identifier.
    InvalidKey,
    /// Stored content does not parse as the expected structured value.
    Decode,
    /// A column declares a primary key, which this storage cannot enforce.
    PrimaryKey,
    /// A schema already exists for the table (the channel already has a pin).
    AlreadyPinned,
}

} // verus!
