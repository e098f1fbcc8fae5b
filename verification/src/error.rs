//! Why a header is rejected, and why a seal could not be made.

use vstd::prelude::*;

verus! {

/// The permanent verdicts on a header that fails validation.
#[derive(Clone, Copy, Debug, PartialEq, Eq, Structural)]
pub enum ValidationError {
    /// The extra data is too short to hold vanity and signature.
    MalformedExtraData,
    /// No public key can be recovered from the signature.
    InvalidSignature,
    /// The recovered signer is not in the signer set.
    UnauthorizedSigner,
    /// The signer sealed a block within the trailing window.
    RecentlySigned,
    /// The difficulty does not match the signer's turn.
    DifficultyMismatch,
    /// A checkpoint names a beneficiary, carries a vote nonce, or has extra
    /// data of the wrong length.
    CheckpointConstraintViolation,
}

/// Why the local node could not sign. These are no verdicts on a header.
#[derive(Clone, Copy, Debug, PartialEq, Eq, Structural)]
pub enum SigningError {
    /// No signer is set.
    NoSigner,
    /// The header's extra data has no room for the seal.
    NoRoomForSeal,
    /// The signature scheme refused the secret key.
    KeyRefused,
}

} // verus!
