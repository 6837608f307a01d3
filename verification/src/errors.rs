//! The error taxonomy of the decoder.
//!
//! Every error is fatal to its decode session: no partial tree is ever
//! returned and no step is retried.

use vstd::prelude::*;

verus! {

/// A fatal decoding error.
///
/// `Unsupported` is deliberately distinct from `MalformedTag` and
/// `UnknownTag`: it marks a byte the format defines but this decoder does not
/// yet build, while the other two mark genuine corruption.
#[derive(Debug, Clone, Copy, PartialEq, Eq)]
pub enum MastError {
    /// One of the first 9 header bytes does not match the magic signature.
    BadMagic,
    /// The version byte (the 10th header byte) is not a recognized value.
    BadVersion,
    /// The stream ended where more bytes were required.
    UnexpectedEof,
    /// A varint used as a byte count exceeds the 64-bit range.
    LengthOverflow,
    /// A byte sequence failed UTF-8 validation; the payload is the first
    /// offset, within the value's own bytes, at which validation failed.
    InvalidUtf8(usize),
    /// A sub-tag byte outside the format's defined alphabet: corruption.
    /// The payload is the tag byte followed by the offending sub-tag byte.
    MalformedTag(u8, u8),
    /// A top-level byte outside the defined alphabet: corruption.
    UnknownTag(u8),
    /// A tag (with an optional sub-tag) the format defines but this decoder
    /// does not yet build: a valid stream, a missing feature.
    Unsupported(u8, Option<u8>),
}

} // verus!
