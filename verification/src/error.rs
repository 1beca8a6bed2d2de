//! The error taxonomy of the store.

use vstd::prelude::*;

verus! {

/// Why a store operation was rejected or failed.
#[derive(Debug, Clone, Copy, PartialEq, Eq, Structural)]
pub enum StoreError {
    /// A constraint of the store was violated: a duplicate tag name, or an
    /// attempt to insert a second running block.
    UniquenessViolation,
    /// The block or tag operated on no longer exists; the operation was a
    /// no-op.
    NotFound,
    /// The store contradicts its own invariants, for instance a block
    /// referencing a tag id that is absent from the tag table.  Fatal to the
    /// operation that discovered it; never silently repaired.
    IntegrityFault,
    /// The store could not be brought to the expected schema version; the
    /// engine refuses to operate on it.
    MigrationFault,
    /// The supplied tag name is empty; tag names are non-empty strings.
    InvalidName,
    /// The store has run out of fresh surrogate identifiers.
    CapacityExhausted,
}

} // verus!
