//! Join-bundle validation and lookup behavior.

use molasses::ciphersuite::CipherSuite;
use molasses::credential::Credential;
use molasses::errors::Error;
use molasses::init_key::UserInitKey;

fn seed(tag: u8) -> Vec<u8> {
    let mut v = vec![0u8; 32];
    for i in 0..32 {
        v[i] = tag.wrapping_add(i as u8).wrapping_mul(13).wrapping_add(1);
    }
    v
}

fn cred(identity_seed: &Vec<u8>) -> Credential {
    Credential::from_identity_key(vec![b'a', b'l', b'i', b'c', b'e'], identity_seed)
}

fn fresh_bundle() -> UserInitKey {
    let identity_seed = seed(1);
    UserInitKey::new_from_random(
        &identity_seed,
        vec![0x42, 0x43],
        cred(&identity_seed),
        vec![CipherSuite::X25519Sha256Aes128Gcm],
        vec![1u8],
        &vec![seed(9)],
    )
    .unwrap()
}

#[test]
fn new_from_random_roundtrip() {
    let uik = fresh_bundle();
    assert!(uik.validate().is_ok());
    assert!(uik.verify_sig().is_ok());
    let pk = uik.get_public_key(CipherSuite::X25519Sha256Aes128Gcm).unwrap();
    assert!(pk.is_some());
    assert_eq!(pk.unwrap(), &molasses::crypto::dh_public_key(&seed(9)));
    let sk = uik.get_private_key(CipherSuite::X25519Sha256Aes128Gcm).unwrap();
    assert_eq!(sk.unwrap(), &seed(9));
}

#[test]
fn duplicate_suites_rejected_at_creation() {
    let identity_seed = seed(1);
    let r = UserInitKey::new_from_random(
        &identity_seed,
        vec![0x42],
        cred(&identity_seed),
        vec![
            CipherSuite::X25519Sha256Aes128Gcm,
            CipherSuite::X25519Sha256Aes128Gcm,
        ],
        vec![1u8, 1u8],
        &vec![seed(9), seed(10)],
    );
    assert_eq!(r.err().unwrap(), Error::ValidationError);
}

#[test]
fn mismatched_version_length_rejected_at_creation() {
    let identity_seed = seed(1);
    let r = UserInitKey::new_from_random(
        &identity_seed,
        vec![0x42],
        cred(&identity_seed),
        vec![CipherSuite::X25519Sha256Aes128Gcm],
        vec![1u8, 1u8],
        &vec![seed(9)],
    );
    assert_eq!(r.err().unwrap(), Error::ValidationError);
}

#[test]
fn shortened_array_fails_validation() {
    let mut uik = fresh_bundle();
    // Deliberately shorten the parallel version array.
    uik.supported_versions = Vec::new();
    let r = uik.validate();
    assert_eq!(r.err().unwrap(), Error::ValidationError);
    // Lookup validates first, so it reports the same error.
    let r2 = uik.get_public_key(CipherSuite::X25519Sha256Aes128Gcm);
    assert_eq!(r2.err().unwrap(), Error::ValidationError);
}

#[test]
fn duplicate_suites_fail_validation() {
    let mut uik = fresh_bundle();
    let pk = uik.init_keys[0].clone();
    let sk = match &uik.private_keys {
        Some(ks) => ks[0].clone(),
        None => unreachable!(),
    };
    uik.cipher_suites.push(CipherSuite::X25519Sha256Aes128Gcm);
    uik.supported_versions.push(1u8);
    uik.init_keys.push(pk);
    uik.private_keys = match uik.private_keys {
        Some(mut ks) => {
            ks.push(sk);
            Some(ks)
        },
        None => None,
    };
    assert_eq!(uik.validate().err().unwrap(), Error::ValidationError);
}

#[test]
fn tampered_signature_fails_verification() {
    let mut uik = fresh_bundle();
    uik.signature[0] ^= 0x01;
    assert_eq!(uik.verify_sig().err().unwrap(), Error::SignatureError);
}

#[test]
fn tampered_body_fails_verification() {
    let mut uik = fresh_bundle();
    uik.user_init_key_id[0] ^= 0x01;
    assert_eq!(uik.verify_sig().err().unwrap(), Error::SignatureError);
}

#[test]
fn lookup_in_empty_bundle_returns_none() {
    let identity_seed = seed(1);
    let uik = UserInitKey::new_from_random(
        &identity_seed,
        vec![0x42],
        cred(&identity_seed),
        Vec::new(),
        Vec::new(),
        &Vec::new(),
    )
    .unwrap();
    let pk = uik.get_public_key(CipherSuite::X25519Sha256Aes128Gcm).unwrap();
    assert!(pk.is_none());
    let sk = uik.get_private_key(CipherSuite::X25519Sha256Aes128Gcm).unwrap();
    assert!(sk.is_none());
}

#[test]
fn private_keys_absent_on_receiving_side() {
    let mut uik = fresh_bundle();
    uik.private_keys = None;
    assert!(uik.validate().is_ok());
    let sk = uik.get_private_key(CipherSuite::X25519Sha256Aes128Gcm).unwrap();
    assert!(sk.is_none());
    // The public key is still found.
    let pk = uik.get_public_key(CipherSuite::X25519Sha256Aes128Gcm).unwrap();
    assert!(pk.is_some());
}
