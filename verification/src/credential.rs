use crate::crypto::{sig_pub_of, sig_public_key};
use vstd::prelude::*;

verus! {

/// The identity information of a group member: an application-level identity
/// string together with the member's long-term Ed25519 identity public key.
/// Handshake signatures and `UserInitKey` signatures verify under this key.
#[derive(Debug, PartialEq, Eq)]
pub struct Credential {
    /// Application-chosen identity bytes (for example a user id).
    pub identity: Vec<u8>,
    /// The 32-byte Ed25519 public key this member signs under.
    pub public_key: Vec<u8>,
}

impl Credential {
    /// Structural soundness of a credential: the identity key has the length
    /// the signature scheme prescribes, and the identity fits the wire format.
    pub open spec fn wf(self) -> bool {
        &&& self.public_key@.len() == 32
        &&& self.identity@.len() < 0x10000
    }

    /// Returns the identity public key named in this credential.
    pub fn get_public_key(&self) -> (r: &Vec<u8>)
        ensures
            r@ == self.public_key@,
    {
        &self.public_key
    }

    /// Builds the credential for an identity whose signing key pair derives
    /// from the given 32-byte seed.
    pub fn from_identity_key(identity: Vec<u8>, identity_key: &Vec<u8>) -> (r: Credential)
        requires
            identity@.len() < 0x10000,
            identity_key@.len() == 32,
        ensures
            r.identity@ == identity@,
            r.public_key@ == sig_pub_of(identity_key@),
            r.wf(),
    {
        let public_key = sig_public_key(identity_key);
        Credential { identity, public_key }
    }
}

} // verus!
