//! Behavior of the cryptographic layer: known answers for the hash and
//! MAC, signature and hybrid-encryption round trips, and the AEAD scheme.

use molasses::aead::{AeadKey, AeadNonce, AeadScheme};
use molasses::crypto::{aead_open, aead_seal, dh_agree, dh_public_key, hmac_sha256, sha256,
    sig_public_key, sig_sign, sig_verify};
use molasses::errors::Error;
use molasses::tree::{ecies_open, ecies_seal};

#[test]
fn sha256_known_answer() {
    // SHA-256 of the empty string.
    let digest = sha256(&Vec::new());
    let expected = vec![
        0xe3u8, 0xb0, 0xc4, 0x42, 0x98, 0xfc, 0x1c, 0x14, 0x9a, 0xfb, 0xf4, 0xc8, 0x99, 0x6f,
        0xb9, 0x24, 0x27, 0xae, 0x41, 0xe4, 0x64, 0x9b, 0x93, 0x4c, 0xa4, 0x95, 0x99, 0x1b, 0x78,
        0x52, 0xb8, 0x55,
    ];
    assert_eq!(digest, expected);
}

#[test]
fn hmac_sha256_known_answer() {
    // RFC 4231, test case 1.
    let key = vec![0x0bu8; 20];
    let data = vec![b'H', b'i', b' ', b'T', b'h', b'e', b'r', b'e'];
    let tag = hmac_sha256(&key, &data);
    let expected = vec![
        0xb0u8, 0x34, 0x4c, 0x61, 0xd8, 0xdb, 0x38, 0x53, 0x5c, 0xa8, 0xaf, 0xce, 0xaf, 0x0b,
        0xf1, 0x2b, 0x88, 0x1d, 0xc2, 0x00, 0xc9, 0x83, 0x3d, 0xa7, 0x26, 0xe9, 0x37, 0x6c, 0x2e,
        0x32, 0xcf, 0xf7,
    ];
    assert_eq!(tag, expected);
}

#[test]
fn dh_shared_secret_agrees() {
    let sk_a = vec![7u8; 32];
    let sk_b = vec![9u8; 32];
    let pk_a = dh_public_key(&sk_a);
    let pk_b = dh_public_key(&sk_b);
    assert_ne!(pk_a, sk_a);
    let s1 = dh_agree(&sk_a, &pk_b).unwrap();
    let s2 = dh_agree(&sk_b, &pk_a).unwrap();
    assert_eq!(s1, s2);
    assert_eq!(s1.len(), 32);
}

#[test]
fn signature_roundtrip_and_rejection() {
    let seed = vec![42u8; 32];
    let pk = sig_public_key(&seed);
    let msg = vec![1u8, 2, 3, 4];
    let sig = sig_sign(&seed, &msg);
    assert_eq!(sig.len(), 64);
    assert!(sig_verify(&pk, &msg, &sig));
    let other = vec![1u8, 2, 3, 5];
    assert!(!sig_verify(&pk, &other, &sig));
    let mut bad = sig.clone();
    bad[10] ^= 0x10;
    assert!(!sig_verify(&pk, &msg, &bad));
}

#[test]
fn aead_wrapper_roundtrip() {
    let key = vec![3u8; 16];
    let nonce = vec![5u8; 12];
    let pt = vec![10u8, 20, 30];
    let ct = aead_seal(&key, &nonce, &pt);
    assert_eq!(ct.len(), pt.len() + 16);
    assert_ne!(&ct[..3], &pt[..]);
    let back = aead_open(&key, &nonce, &ct).unwrap();
    assert_eq!(back, pt);
    let mut tampered = ct.clone();
    tampered[0] ^= 0xff;
    assert!(aead_open(&key, &nonce, &tampered).is_none());
}

#[test]
fn aead_scheme_in_place_roundtrip() {
    let scheme = AeadScheme::Aes128Gcm;
    assert_eq!(scheme.key_size(), 16);
    assert_eq!(scheme.nonce_size(), 12);
    assert_eq!(scheme.tag_size(), 16);
    let key = AeadKey::new_from_bytes(scheme, &vec![1u8; 16]).unwrap();
    let plaintext = vec![9u8, 8, 7, 6, 5];
    let mut buf = plaintext.clone();
    buf.extend(vec![0u8; 16]);
    let nonce1 = AeadNonce::new_from_bytes(scheme, &vec![2u8; 12]).unwrap();
    scheme.seal(&key, nonce1, &mut buf).unwrap();
    assert_eq!(buf.len(), plaintext.len() + 16);
    let nonce2 = AeadNonce::new_from_bytes(scheme, &vec![2u8; 12]).unwrap();
    let recovered = scheme.open(&key, nonce2, &buf).unwrap();
    assert_eq!(recovered, plaintext);
}

#[test]
fn aead_seal_is_deterministic() {
    // Two members sealing the same plaintext under the same key and nonce
    // (as identically applied group operations do) produce byte-identical
    // buffers.
    let scheme = AeadScheme::Aes128Gcm;
    let key1 = AeadKey::new_from_bytes(scheme, &vec![4u8; 16]).unwrap();
    let key2 = AeadKey::new_from_bytes(scheme, &vec![4u8; 16]).unwrap();
    let mut buf1 = vec![1u8, 2, 3, 4, 5, 6, 7];
    buf1.extend(vec![0u8; 16]);
    let mut buf2 = buf1.clone();
    let nonce1 = AeadNonce::new_from_bytes(scheme, &vec![6u8; 12]).unwrap();
    let nonce2 = AeadNonce::new_from_bytes(scheme, &vec![6u8; 12]).unwrap();
    scheme.seal(&key1, nonce1, &mut buf1).unwrap();
    scheme.seal(&key2, nonce2, &mut buf2).unwrap();
    assert_eq!(buf1, buf2);
}

#[test]
fn aead_scheme_detects_tampering() {
    let scheme = AeadScheme::Aes128Gcm;
    let key = AeadKey::new_from_bytes(scheme, &vec![1u8; 16]).unwrap();
    let mut buf = vec![9u8, 8, 7];
    buf.extend(vec![0u8; 16]);
    let nonce1 = AeadNonce::new_from_bytes(scheme, &vec![2u8; 12]).unwrap();
    scheme.seal(&key, nonce1, &mut buf).unwrap();
    buf[1] ^= 0x20;
    let nonce2 = AeadNonce::new_from_bytes(scheme, &vec![2u8; 12]).unwrap();
    let r = scheme.open(&key, nonce2, &buf);
    assert_eq!(r.err().unwrap(), Error::EncryptionError);
}

#[test]
fn aead_key_and_nonce_lengths_enforced() {
    let scheme = AeadScheme::Aes128Gcm;
    assert_eq!(
        AeadKey::new_from_bytes(scheme, &vec![1u8; 15]).err().unwrap(),
        Error::EncryptionError
    );
    assert_eq!(
        AeadNonce::new_from_bytes(scheme, &vec![1u8; 11]).err().unwrap(),
        Error::EncryptionError
    );
    let key = AeadKey::new_from_bytes(scheme, &vec![1u8; 16]).unwrap();
    // A buffer shorter than one tag cannot be sealed.
    let mut tiny = vec![0u8; 3];
    let nonce = AeadNonce::new_from_bytes(scheme, &vec![2u8; 12]).unwrap();
    assert_eq!(
        scheme.seal(&key, nonce, &mut tiny).err().unwrap(),
        Error::EncryptionError
    );
}

#[test]
fn ecies_roundtrip_and_rejection() {
    let sk = vec![11u8; 32];
    let pk = dh_public_key(&sk);
    let eph = vec![13u8; 32];
    let secret = vec![200u8; 32];
    let ct = ecies_seal(&pk, &eph, &secret).unwrap();
    let back = ecies_open(&sk, &ct).unwrap();
    assert_eq!(back, secret);
    // A different private key cannot open it.
    let other_sk = vec![12u8; 32];
    assert!(ecies_open(&other_sk, &ct).is_err());
}
