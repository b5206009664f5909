//! The fatal error taxonomy of the rewriter.

use vstd::prelude::*;

verus! {

/// A fatal error that aborts a rewrite. Chunks already written form a
/// valid prefix; nothing is written for the chunk in flight.
#[derive(Debug)]
pub enum RewriteError {
    /// The stream does not begin with the 8-byte signature.
    BadSignature,
    /// A chunk's declared payload length exceeds the bytes available.
    TruncatedPayload,
    /// The on-wire checksum of the named chunk type disagrees with the
    /// checksum computed over its type tag and payload.
    ChecksumMismatch(Vec<u8>),
    /// The transform could not process a merged payload.
    TransformFailed,
    /// A transformed payload does not fit the 32-bit length field.
    PayloadTooLarge,
}

/// The mathematical shape of a [`RewriteError`], with the offending
/// type tag as a byte sequence.
pub enum ErrKind {
    Signature,
    Truncated,
    Checksum(Seq<u8>),
    Transform,
    TooLarge,
}

impl RewriteError {
    /// The kind of this error, for use in contracts.
    pub open spec fn kind(self) -> ErrKind {
        match self {
            RewriteError::BadSignature => ErrKind::Signature,
            RewriteError::TruncatedPayload => ErrKind::Truncated,
            RewriteError::ChecksumMismatch(t) => ErrKind::Checksum(t@),
            RewriteError::TransformFailed => ErrKind::Transform,
            RewriteError::PayloadTooLarge => ErrKind::TooLarge,
        }
    }

}

} // verus!
