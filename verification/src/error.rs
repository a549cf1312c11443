//! Errors of reading and writing a GSUB table.
use vstd::prelude::*;

verus! {

/// Why a GSUB table could not be read.
#[derive(Debug, Clone, Copy, PartialEq, Eq, Structural)]
pub enum DeserializeError {
    /// A field, or a table that an offset points at, lies past the end of the data.
    Truncated,
    /// A lookup has a type that this reader does not handle (only types 1 to 4 are read).
    UnsupportedLookupType(u16),
    /// The script list or a lookup subtable runs past the end of the data or
    /// has a format that is not known.
    BadTable,
    /// A lookup holds a null subtable offset.
    NullSubtable,
    /// The header's script list offset is null.
    BadScriptList,
    /// The header's lookup list offset is null.
    BadLookupList,
    /// The lookup list holds a null lookup offset.
    BadLookup,
    /// The header's feature list offset is null.
    BadFeatureList,
    /// A feature record holds a null feature table offset.
    BadFeature,
}

/// Why a GSUB table could not be written.
#[derive(Debug, Clone, Copy, PartialEq, Eq, Structural)]
pub enum SerializeError {
    /// A child table would start more than 65535 bytes after its parent,
    /// so its 16-bit offset cannot be written.
    OffsetOverflow,
}

} // verus!
