//! The closed error taxonomy of the decoder, and the separate error raised
//! while a hash dictionary line is parsed (before any decode call).

use vstd::prelude::*;

verus! {

/// A terminal decode failure.  Every error aborts the whole decode: the
/// format carries no redundancy that would allow partial recovery.
#[derive(Clone, Copy, PartialEq, Eq, Structural, Debug)]
pub enum BinError {
    /// Fewer bytes remained in the current region than a read requested.
    UnexpectedEof,
    /// The fixed 4-byte magic at offset 0 did not match.
    BadMagic,
    /// A type tag byte outside the known set; skipping is unsound because
    /// every tag's wire width must be known exactly.
    UnknownTag,
    /// Opening one more nested region would exceed the hard depth cap.
    DepthExceeded,
    /// A declared sub-region length reaches past the parent's bytes.
    RegionOverrun,
    /// A length-prefixed text payload was not valid UTF-8.
    InvalidText,
}

/// A malformed line in a hash dictionary source.  Kept apart from
/// [`BinError`]: it can only arise while the dictionaries are populated,
/// strictly before any decode call.
#[derive(Clone, Copy, PartialEq, Eq, Structural, Debug)]
pub enum MalformedHashFile {
    /// The line holds no space separating the hash from its label.
    MissingSeparator,
    /// The text before the separator is not a hex number of the table's
    /// width (empty, a non-hex digit, or too large).
    NonHexHash,
}

} // verus!
