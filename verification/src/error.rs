use vstd::prelude::*;

verus! {

/// The ways a parse can fail. Parsing is all-or-nothing: a failure never
/// yields a partial document.
#[derive(Clone, Copy, Debug, PartialEq, Eq, Structural)]
pub enum ErrorKind {
    /// A tagged block declared a length under 2, which cannot even cover the
    /// two length bytes themselves.
    MalformedLength,
    /// Fewer bytes remained than a structurally required count.
    UnexpectedEndOfInput,
    /// The input did not begin with the Start-of-Image marker.
    MissingStartMarker,
    /// The input ended without an End-of-Image marker.
    MissingEndMarker,
    /// At a container position, neither scan-block nor tagged-block syntax
    /// matched, and the position did not hold the End-of-Image marker.
    NoAlternativeMatched,
}

/// A parse failure: what went wrong and the byte offset where it was found.
///
/// An `UnexpectedEndOfInput` carries the input length (the offset where the
/// input ran out); the other kinds carry the offset of the offending bytes.
#[derive(Clone, Copy, Debug, PartialEq, Eq, Structural)]
pub struct ParseError {
    pub kind: ErrorKind,
    pub offset: usize,
}

} // verus!
