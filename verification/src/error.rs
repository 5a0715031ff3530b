//! The error taxonomy for snapshot construction.

use vstd::prelude::*;

verus! {

/// Errors that can arise while building a [`crate::memory::Memory`]
/// inventory from a property snapshot.
///
/// Per-field parse failures inside a single device's optional attributes
/// are never surfaced through this type: they degrade to an absent value.
#[derive(Clone, Copy, Debug, PartialEq, Eq)]
pub enum Error {
    /// The property source could not be opened or read.
    Io,
    /// The device-count property was not found in the snapshot.
    Missing,
    /// The device-count value was present but not a valid unsigned integer.
    ParseInt,
}

} // verus!
