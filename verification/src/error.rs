//! The ways in which compiling or describing a container fails.

use vstd::prelude::*;

verus! {

/// Why an operation on a caption source or a caption container failed.
///
/// Every failure is final for the operation that reports it: nothing is
/// retried and no partial result is returned.
#[derive(Debug, Clone, Copy, PartialEq, Eq, Structural)]
pub enum CaptionError {
    /// The first header field is not the container's identifier.
    InvalidMagic,
    /// The second header field is not the supported format revision.
    InvalidVersion,
    /// A header, a directory entry or a caption's text reaches past the end
    /// of the available bytes.
    TruncatedInput,
    /// One caption's encoded text, terminator included, is longer than a block.
    CaptionTooLarge,
    /// A token's value is not a string.
    MalformedSourceValue,
    /// The source document holds no section of tokens.
    MissingTokensSection,
    /// The source bytes do not form a key/value document.
    InvalidSource,
    /// There are more captions than the header's 32-bit fields can index.
    TooManyCaptions,
}

} // verus!
