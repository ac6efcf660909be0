use vstd::prelude::*;

verus! {

/// The error kinds this library reports. Every fallible operation returns a
/// `Result` carrying one of these; no failure is silently swallowed.
///
/// `EncryptionError` deliberately collapses all hybrid-encryption and AEAD
/// failures into one undifferentiated signal, so that error content cannot be
/// used as a decryption oracle.
#[derive(Clone, Copy, Debug, PartialEq, Eq, Structural)]
pub enum Error {
    /// A structural or invariant violation: mismatched parallel-array lengths,
    /// duplicate cipher suites, a direct-path message of the wrong length, or
    /// an out-of-range index.
    ValidationError,
    /// A signature failed to verify.
    SignatureError,
    /// An AEAD or hybrid-encryption step failed; opaque by design.
    EncryptionError,
    /// The keyed MAC confirming the new epoch key did not match.
    ConfirmationError,
    /// A handshake's prior epoch did not equal the current group epoch.
    EpochMismatchError,
}

} // verus!
