//! The ways in which handling a DNS name can fail.

use vstd::prelude::*;

verus! {

/// The error type of this library.
///
/// Only the kind of failure is part of the interface; how a kind is worded
/// for a human reader is left to the caller.
#[derive(Clone, Copy, Debug, PartialEq, Eq, Structural)]
pub enum Error {
    /// A position on the wire does not fit the type kept for label positions.
    BugWirePos(usize),
    /// A trie key is not the encoding of any DNS name.
    BugTrieName,
    /// A compression pointer where none is allowed, or one that does not
    /// point strictly backwards.
    CompressBad,
    /// A compression pointer that points at another compression pointer.
    CompressChain,
    /// A decimal escape in text that does not denote a byte; carries the
    /// value of the digits that were read.
    EscapeBad(u16),
    /// A label in text is longer than 63 bytes.
    LabelLength,
    /// A label starts with a byte of one of the reserved label types.
    LabelType(u8),
    /// The name has more than 128 labels.
    NameLabels,
    /// The name is longer than 255 bytes on the wire.
    NameLength,
    /// The text holds a quoted string.
    NameQuotes,
    /// The text has an empty label that is not the whole name.
    NameSyntax,
    /// Something follows the name where nothing should.
    NameTrailing,
    /// The name runs past the end of its buffer.
    NameTruncated,
    /// A scratch pad is full.
    ScratchOverflow,
    /// A position on the wire does not fit in a byte.
    WideWire,
}

} // verus!
