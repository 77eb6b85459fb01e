//! The classified failures that encoding and decoding can report.

use vstd::prelude::*;

verus! {

/// Everything that can go wrong while encoding or decoding a message.
///
/// Every failure is local to the one message being processed; no error is
/// fatal to anything beyond that message.
#[derive(Debug, Clone, Copy, PartialEq, Eq, Structural)]
pub enum Error {
    /// A declared length or count field is negative or otherwise invalid for
    /// its convention (for example a compact length of zero where at least
    /// one is required, or a value too long for its length prefix).
    MalformedLength,
    /// Fewer bytes remain in the input than a field requires.
    Truncated,
    /// Bytes claimed to be UTF-8 text are not valid UTF-8.
    InvalidUtf8,
    /// A top-level decode left unconsumed bytes behind.
    TrailingData,
    /// A value or schema shape the codec does not implement, such as a
    /// 64-bit integer routed through the shape-generic engine.
    UnsupportedShape,
}

} // verus!
