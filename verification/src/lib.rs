//! Resolution of hardware-address prefixes (OUIs) to vendor names.
//!
//! The crate parses the authoritative vendor registry from its delimited
//! tabular form, keeps the resulting mapping in a store keyed by the 24-bit
//! address prefix, serializes the mapping to a compact snapshot for fast
//! reloading, and answers lookups for 6-byte hardware addresses.

use vstd::prelude::*;

pub mod errors;
pub mod hex;
pub mod registry;
pub mod snapshot;
pub mod store;

pub use errors::VendorError;
pub use hex::format_oui;
pub use registry::{parse_csv, refresh_from_content};
pub use snapshot::{decode_snapshot, encode_snapshot};
pub use store::Vendor;

verus! {

/// Relies on String::push from std: it appends the given character to the
/// end of the string; vstd does not specify it.
pub assume_specification[ String::push ](s: &mut String, ch: char)
    ensures
        final(s)@ == old(s)@.push(ch),
;

} // verus!
