//! The error taxonomy of the refresh and load pipeline.

use vstd::prelude::*;

verus! {

/// Why building or loading a vendor store failed.
///
/// A lookup for an unknown prefix is not an error: `search_by_mac` returns
/// `None` for it.
#[derive(Clone, Copy, Debug, PartialEq, Eq, Structural)]
pub enum VendorError {
    /// The registry source (file or network) could not be read.
    SourceUnavailable,
    /// A registry row does not match the 4-field schema, or its key column
    /// is not a 6-character uppercase hexadecimal prefix.
    MalformedRecord,
    /// The cache snapshot exists but is not a well-formed snapshot.
    SnapshotCorrupt,
}

} // verus!
