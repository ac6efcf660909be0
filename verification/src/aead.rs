//! Authenticated encryption, as the group core uses it.
//!
//! The scheme is AES-128-GCM with no associated data. Sealing works in
//! place: a buffer holding `plaintext || extra`, with `extra` one tag wide,
//! is rewritten to `ciphertext || tag`.

use crate::bytes_clone;
use crate::crypto::{aead_open, aead_open_of, aead_seal, aead_seal_of};
use crate::errors::Error;
use vstd::prelude::*;

verus! {

/// An authenticated encryption algorithm.
#[derive(Clone, Copy, Debug, PartialEq, Eq, Structural)]
pub enum AeadScheme {
    /// AES-128-GCM.
    Aes128Gcm,
}

/// A key for an AEAD scheme.
pub enum AeadKey {
    /// An opening / sealing key in AES-128-GCM.
    Aes128GcmKey(Vec<u8>),
}

/// A nonce for an AEAD scheme.
pub enum AeadNonce {
    /// A nonce in AES-128-GCM.
    Aes128GcmNonce(Vec<u8>),
}

impl AeadKey {
    /// The raw key bytes.
    pub open spec fn bytes_spec(self) -> Seq<u8> {
        match self {
            AeadKey::Aes128GcmKey(b) => b@,
        }
    }

    /// A key is as long as its scheme prescribes.
    pub open spec fn wf(self) -> bool {
        self.bytes_spec().len() == 16
    }

    /// Makes a new key from the given bytes. Fails exactly when the length
    /// is not the scheme's key size.
    pub fn new_from_bytes(scheme: AeadScheme, bytes: &Vec<u8>) -> (r: Result<AeadKey, Error>)
        ensures
            r is Ok <==> bytes@.len() == scheme.key_size_spec(),
            r matches Ok(k) ==> k.bytes_spec() == bytes@ && k.wf(),
            r is Err ==> r == Err::<AeadKey, Error>(Error::EncryptionError),
    {
        match scheme {
            AeadScheme::Aes128Gcm => {
                if bytes.len() != 16 {
                    return Err(Error::EncryptionError);
                }
                Ok(AeadKey::Aes128GcmKey(bytes_clone(bytes)))
            },
        }
    }
}

impl AeadNonce {
    /// The raw nonce bytes.
    pub open spec fn bytes_spec(self) -> Seq<u8> {
        match self {
            AeadNonce::Aes128GcmNonce(b) => b@,
        }
    }

    /// A nonce is as long as its scheme prescribes.
    pub open spec fn wf(self) -> bool {
        self.bytes_spec().len() == 12
    }

    /// Makes a new nonce from the given bytes. Fails exactly when the
    /// length is not the scheme's nonce size.
    pub fn new_from_bytes(scheme: AeadScheme, bytes: &Vec<u8>) -> (r: Result<AeadNonce, Error>)
        ensures
            r is Ok <==> bytes@.len() == scheme.nonce_size_spec(),
            r matches Ok(n) ==> n.bytes_spec() == bytes@ && n.wf(),
            r is Err ==> r == Err::<AeadNonce, Error>(Error::EncryptionError),
    {
        match scheme {
            AeadScheme::Aes128Gcm => {
                if bytes.len() != 12 {
                    return Err(Error::EncryptionError);
                }
                Ok(AeadNonce::Aes128GcmNonce(bytes_clone(bytes)))
            },
        }
    }
}

impl AeadScheme {
    /// The size of keys in this scheme, in bytes.
    pub open spec fn key_size_spec(self) -> int {
        16
    }

    /// The size of nonces in this scheme, in bytes.
    pub open spec fn nonce_size_spec(self) -> int {
        12
    }

    /// The size of authentication tags in this scheme, in bytes.
    pub open spec fn tag_size_spec(self) -> int {
        16
    }

    /// Returns the size of encryption keys in this scheme.
    pub fn key_size(&self) -> (r: usize)
        ensures
            r == self.key_size_spec(),
    {
        16
    }

    /// Returns the size of nonces in this scheme.
    pub fn nonce_size(&self) -> (r: usize)
        ensures
            r == self.nonce_size_spec(),
    {
        12
    }

    /// Returns the size of authentication tags in this scheme.
    pub fn tag_size(&self) -> (r: usize)
        ensures
            r == self.tag_size_spec(),
    {
        16
    }

    /// Does an in-place authenticated encryption. The buffer must hold
    /// `plaintext || extra` with `extra` one tag wide; on success it holds
    /// `ciphertext || tag` instead. Fails, leaving the buffer unchanged,
    /// exactly when the buffer is shorter than a tag or too long to seal.
    pub fn seal(&self, key: &AeadKey, nonce: AeadNonce, plaintext: &mut Vec<u8>) -> (r: Result<
        (),
        Error,
    >)
        requires
            key.wf(),
            nonce.wf(),
        ensures
            r is Ok <==> 16 <= old(plaintext)@.len() < 0x1_0000_0010,
            r is Ok ==> final(plaintext)@ == aead_seal_of(
                key.bytes_spec(),
                nonce.bytes_spec(),
                old(plaintext)@.take(old(plaintext)@.len() - 16),
            ),
            r is Ok ==> final(plaintext)@.len() == old(plaintext)@.len(),
            r is Ok ==> aead_open_of(key.bytes_spec(), nonce.bytes_spec(), final(plaintext)@)
                == Some(old(plaintext)@.take(old(plaintext)@.len() - 16)),
            r is Err ==> r == Err::<(), Error>(Error::EncryptionError) && final(plaintext)@ == old(
                plaintext,
            )@,
    {
        if plaintext.len() < 16 {
            return Err(Error::EncryptionError);
        }
        if plaintext.len() as u64 >= 0x1_0000_0010u64 {
            return Err(Error::EncryptionError);
        }
        let mut body = bytes_clone(plaintext);
        body.truncate(plaintext.len() - 16);
        let key_bytes = match key {
            AeadKey::Aes128GcmKey(b) => b,
        };
        let nonce_bytes = match &nonce {
            AeadNonce::Aes128GcmNonce(b) => b,
        };
        let sealed = aead_seal(key_bytes, nonce_bytes, &body);
        *plaintext = sealed;
        Ok(())
    }

    /// Does an authenticated decryption of `ciphertext || tag`. Returns the
    /// plaintext exactly when the scheme's opening succeeds, and an opaque
    /// `EncryptionError` otherwise.
    pub fn open(&self, key: &AeadKey, nonce: AeadNonce, ciphertext_and_tag: &Vec<u8>) -> (r: Result<
        Vec<u8>,
        Error,
    >)
        requires
            key.wf(),
            nonce.wf(),
        ensures
            r is Ok <==> aead_open_of(key.bytes_spec(), nonce.bytes_spec(), ciphertext_and_tag@)
                is Some,
            r matches Ok(p) ==> aead_open_of(key.bytes_spec(), nonce.bytes_spec(),
            ciphertext_and_tag@) == Some(p@),
            r is Err ==> r == Err::<Vec<u8>, Error>(Error::EncryptionError),
    {
        let key_bytes = match key {
            AeadKey::Aes128GcmKey(b) => b,
        };
        let nonce_bytes = match &nonce {
            AeadNonce::Aes128GcmNonce(b) => b,
        };
        match aead_open(key_bytes, nonce_bytes, ciphertext_and_tag) {
            Some(p) => Ok(p),
            None => Err(Error::EncryptionError),
        }
    }
}

} // verus!
