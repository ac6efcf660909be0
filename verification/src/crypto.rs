//! Trusted boundary to the `ring` cryptography crate.
//!
//! Every function here is an `external_body` wrapper around one `ring`
//! operation. Each deterministic operation's result is named by an
//! uninterpreted spec function, so that verified callers can state exact
//! contracts without this crate restating the algorithms themselves.

use ring::signature::KeyPair;
use vstd::prelude::*;

verus! {

/// The SHA-256 digest of `data`.
pub uninterp spec fn sha256_of(data: Seq<u8>) -> Seq<u8>;

/// The HMAC-SHA-256 tag over `data` under `key`.
pub uninterp spec fn hmac_sha256_of(key: Seq<u8>, data: Seq<u8>) -> Seq<u8>;

/// The X25519 public key derived from the 32-byte private key `sk`.
pub uninterp spec fn dh_pub_of(sk: Seq<u8>) -> Seq<u8>;

/// The X25519 shared secret between private key `sk` and peer public key
/// `pk`, or `None` where the agreement rejects `pk`.
pub uninterp spec fn dh_shared_of(sk: Seq<u8>, pk: Seq<u8>) -> Option<Seq<u8>>;

/// The Ed25519 public key derived from the 32-byte seed `seed`.
pub uninterp spec fn sig_pub_of(seed: Seq<u8>) -> Seq<u8>;

/// The Ed25519 signature over `msg` under the key with seed `seed`
/// (Ed25519 signing is deterministic).
pub uninterp spec fn sig_sign_of(seed: Seq<u8>, msg: Seq<u8>) -> Seq<u8>;

/// Whether `sig` is a valid Ed25519 signature over `msg` under public key
/// `pk`.
pub uninterp spec fn sig_verifies(pk: Seq<u8>, msg: Seq<u8>, sig: Seq<u8>) -> bool;

/// The AES-128-GCM sealing of `pt` under `key` and `nonce`: the ciphertext
/// with the 16-byte tag appended.
pub uninterp spec fn aead_seal_of(key: Seq<u8>, nonce: Seq<u8>, pt: Seq<u8>) -> Seq<u8>;

/// The AES-128-GCM opening of the tagged ciphertext `ct` under `key` and
/// `nonce`, or `None` where authentication fails.
pub uninterp spec fn aead_open_of(key: Seq<u8>, nonce: Seq<u8>, ct: Seq<u8>) -> Option<Seq<u8>>;

/// Relies on `ring::digest::digest` with SHA-256: the digest is a pure
/// 32-byte function of the input bytes.
#[verifier::external_body]
pub fn sha256(data: &Vec<u8>) -> (r: Vec<u8>)
    ensures
        r@ == sha256_of(data@),
        r@.len() == 32,
{
    ring::digest::digest(&ring::digest::SHA256, data.as_slice()).as_ref().to_vec()
}

/// Relies on `ring::hmac::sign` with HMAC-SHA-256: the tag is a pure 32-byte
/// function of the key and the message.
#[verifier::external_body]
pub fn hmac_sha256(key: &Vec<u8>, data: &Vec<u8>) -> (r: Vec<u8>)
    ensures
        r@ == hmac_sha256_of(key@, data@),
        r@.len() == 32,
{
    let k = ring::hmac::Key::new(ring::hmac::HMAC_SHA256, key.as_slice());
    ring::hmac::sign(&k, data.as_slice()).as_ref().to_vec()
}

/// Relies on `ring::agreement::EphemeralPrivateKey::generate` driven by the
/// fixed-slice test rng: for X25519 the generated private key is exactly the
/// 32 supplied bytes (`x25519_check_private_key_bytes` accepts any 32 bytes),
/// so `compute_public_key` yields a pure 32-byte function of them.
#[allow(deprecated)]
#[verifier::external_body]
pub fn dh_public_key(sk: &Vec<u8>) -> (r: Vec<u8>)
    requires
        sk@.len() == 32,
    ensures
        r@ == dh_pub_of(sk@),
        r@.len() == 32,
{
    let rng = ring::test::rand::FixedSliceRandom { bytes: sk.as_slice() };
    let private_key =
        ring::agreement::EphemeralPrivateKey::generate(&ring::agreement::X25519, &rng).unwrap();
    private_key.compute_public_key().unwrap().as_ref().to_vec()
}

/// Relies on `ring::agreement::agree_ephemeral` for X25519, with the private
/// key rebuilt deterministically from `sk` as in `dh_public_key`: the shared
/// secret is a pure function of `sk` and `pk`, 32 bytes long, and the
/// agreement fails only as a function of those inputs.
#[allow(deprecated)]
#[verifier::external_body]
pub fn dh_agree(sk: &Vec<u8>, pk: &Vec<u8>) -> (r: Option<Vec<u8>>)
    requires
        sk@.len() == 32,
    ensures
        r matches Some(s) ==> dh_shared_of(sk@, pk@) == Some(s@) && s@.len() == 32,
        r is None ==> dh_shared_of(sk@, pk@) is None,
{
    let rng = ring::test::rand::FixedSliceRandom { bytes: sk.as_slice() };
    let private_key =
        match ring::agreement::EphemeralPrivateKey::generate(&ring::agreement::X25519, &rng) {
            Ok(k) => k,
            Err(_) => return None,
        };
    let peer = ring::agreement::UnparsedPublicKey::new(&ring::agreement::X25519, pk.as_slice());
    ring::agreement::agree_ephemeral(private_key, &peer, |shared: &[u8]| shared.to_vec()).ok()
}

/// Relies on `ring::signature::Ed25519KeyPair::from_seed_unchecked`, which
/// derives the key pair deterministically from a 32-byte seed, and on
/// `KeyPair::public_key`.
#[verifier::external_body]
pub fn sig_public_key(seed: &Vec<u8>) -> (r: Vec<u8>)
    requires
        seed@.len() == 32,
    ensures
        r@ == sig_pub_of(seed@),
        r@.len() == 32,
{
    let kp = ring::signature::Ed25519KeyPair::from_seed_unchecked(seed.as_slice()).unwrap();
    kp.public_key().as_ref().to_vec()
}

/// Relies on `ring::signature::Ed25519KeyPair::sign`: Ed25519 signing is
/// deterministic (RFC 8032), yields 64 bytes, and a signature made under a
/// seed's key pair verifies under that seed's public key.
#[verifier::external_body]
pub fn sig_sign(seed: &Vec<u8>, msg: &Vec<u8>) -> (r: Vec<u8>)
    requires
        seed@.len() == 32,
    ensures
        r@ == sig_sign_of(seed@, msg@),
        r@.len() == 64,
        sig_verifies(sig_pub_of(seed@), msg@, r@),
{
    let kp = ring::signature::Ed25519KeyPair::from_seed_unchecked(seed.as_slice()).unwrap();
    kp.sign(msg.as_slice()).as_ref().to_vec()
}

/// Relies on `ring::signature::UnparsedPublicKey::verify` with Ed25519:
/// acceptance is a pure function of public key, message, and signature.
#[verifier::external_body]
pub fn sig_verify(pk: &Vec<u8>, msg: &Vec<u8>, sig: &Vec<u8>) -> (r: bool)
    ensures
        r == sig_verifies(pk@, msg@, sig@),
{
    let key = ring::signature::UnparsedPublicKey::new(&ring::signature::ED25519, pk.as_slice());
    key.verify(msg.as_slice(), sig.as_slice()).is_ok()
}

/// Relies on `ring::aead::LessSafeKey::seal_in_place_append_tag` with
/// AES-128-GCM: sealing is deterministic in key, nonce and plaintext, appends
/// a 16-byte tag, and what it seals, `open_in_place` opens back to the same
/// plaintext.
#[verifier::external_body]
pub fn aead_seal(key: &Vec<u8>, nonce: &Vec<u8>, pt: &Vec<u8>) -> (r: Vec<u8>)
    requires
        key@.len() == 16,
        nonce@.len() == 12,
        pt@.len() < 0x1_0000_0000,
    ensures
        r@ == aead_seal_of(key@, nonce@, pt@),
        r@.len() == pt@.len() + 16,
        aead_open_of(key@, nonce@, r@) == Some(pt@),
{
    let unbound = ring::aead::UnboundKey::new(&ring::aead::AES_128_GCM, key.as_slice()).unwrap();
    let k = ring::aead::LessSafeKey::new(unbound);
    let n = ring::aead::Nonce::try_assume_unique_for_key(nonce.as_slice()).unwrap();
    let mut buf = pt.clone();
    k.seal_in_place_append_tag(n, ring::aead::Aad::empty(), &mut buf).unwrap();
    buf
}

/// Relies on `ring::aead::LessSafeKey::open_in_place` with AES-128-GCM:
/// opening is deterministic in key, nonce and ciphertext, and strips the
/// 16-byte tag on success.
#[verifier::external_body]
pub fn aead_open(key: &Vec<u8>, nonce: &Vec<u8>, ct: &Vec<u8>) -> (r: Option<Vec<u8>>)
    requires
        key@.len() == 16,
        nonce@.len() == 12,
    ensures
        r matches Some(p) ==> aead_open_of(key@, nonce@, ct@) == Some(p@) && ct@.len() >= 16
            && p@.len() == ct@.len() - 16,
        r is None ==> aead_open_of(key@, nonce@, ct@) is None,
{
    let unbound = match ring::aead::UnboundKey::new(&ring::aead::AES_128_GCM, key.as_slice()) {
        Ok(u) => u,
        Err(_) => return None,
    };
    let k = ring::aead::LessSafeKey::new(unbound);
    let n = match ring::aead::Nonce::try_assume_unique_for_key(nonce.as_slice()) {
        Ok(n) => n,
        Err(_) => return None,
    };
    let mut buf = ct.clone();
    match k.open_in_place(n, ring::aead::Aad::empty(), &mut buf) {
        Ok(p) => Some(p.to_vec()),
        Err(_) => None,
    }
}

} // verus!
