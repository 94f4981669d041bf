//! Typed failures surfaced by the codecs.
//!
//! No error is retried internally, and a decode that fails returns before
//! any caller-visible state is touched.

use vstd::prelude::*;

verus! {

/// A required field of the PDB header builder.
#[derive(Clone, Copy, Debug, PartialEq, Eq, Structural)]
pub enum HeaderField {
    /// The database name.
    Name,
    /// The four-byte type code.
    TypeCode,
    /// The four-byte creator code.
    Creator,
}

/// The failures the PDB and MOBI codecs surface to their callers.
#[derive(Clone, Copy, Debug, PartialEq, Eq, Structural)]
pub enum PDBError {
    /// The header or record table is inconsistent with the input length.
    MalformedContainer,
    /// A requested record index has no backing entry.
    TruncatedRecord,
    /// The compression mode is neither "none" nor PalmDOC.
    UnsupportedCompression,
    /// The PDB builder was finalized without this required field.
    MissingRequiredField(HeaderField),
    /// A timestamp lies before the Palm epoch or past what 32 bits hold.
    TimestampOutOfRange,
}

} // verus!
