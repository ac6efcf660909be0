use vstd::prelude::*;

verus! {

/// A protocol version identifier carried in a `UserInitKey`.
pub type ProtocolVersion = u8;

/// A negotiated bundle of cryptographic algorithms. The group-agreement core
/// depends on a suite only as an identity to compare and to select key
/// material with; the concrete algorithms stand behind the trusted wrappers
/// in `crypto`.
#[derive(Clone, Copy, Debug, PartialEq, Eq, Structural)]
pub enum CipherSuite {
    /// X25519 key agreement, SHA-256 hashing, AES-128-GCM AEAD.
    X25519Sha256Aes128Gcm,
}

} // verus!
