//! End-to-end scenarios over a four-member group.

use molasses::ciphersuite::CipherSuite;
use molasses::credential::Credential;
use molasses::crypto::dh_public_key;
use molasses::errors::Error;
use molasses::group::{GroupOperation, GroupState, Handshake};

fn seed(tag: u8) -> Vec<u8> {
    let mut v = vec![0u8; 32];
    for i in 0..32 {
        v[i] = tag.wrapping_add(i as u8).wrapping_mul(7).wrapping_add(3);
    }
    v
}

/// Builds the same 4-member group from the perspective of member `me`.
fn group_for(me: u32) -> GroupState {
    let n = 4usize;
    let mut roster: Vec<Option<Credential>> = Vec::new();
    let mut leaf_pks: Vec<Option<Vec<u8>>> = Vec::new();
    for i in 0..n {
        let identity_seed = seed(10 + i as u8);
        let leaf_secret = seed(50 + i as u8);
        let cred = Credential::from_identity_key(vec![b'm', b'e', b'm', i as u8], &identity_seed);
        roster.push(Some(cred));
        leaf_pks.push(Some(dh_public_key(&leaf_secret)));
    }
    let my_identity = seed(10 + me as u8);
    let my_leaf_secret = seed(50 + me as u8);
    let group_secret = seed(99);
    GroupState::new(
        CipherSuite::X25519Sha256Aes128Gcm,
        roster,
        me,
        my_identity,
        &leaf_pks,
        &my_leaf_secret,
        &group_secret,
    )
}

fn make_update(a: &GroupState) -> (Handshake, GroupState) {
    let fresh = seed(123);
    let update_seed = seed(77);
    let (op, new_a, conf_key) = a.create_update_op(&fresh, &update_seed).unwrap();
    let h = a.create_handshake(op, &conf_key).unwrap();
    (h, new_a)
}

#[test]
fn update_convergence() {
    let a = group_for(0);
    let b = group_for(1);
    assert_eq!(a.epoch, 0);
    let (h, new_a) = make_update(&a);
    let new_b = b.process_handshake(&h).unwrap();
    assert_eq!(new_a.epoch, 1);
    assert_eq!(new_b.epoch, 1);
    let bytes_a = new_a.serialize().unwrap();
    let bytes_b = new_b.serialize().unwrap();
    assert_eq!(bytes_a, bytes_b, "GroupStates disagree after Update");
}

#[test]
fn update_convergence_all_members() {
    let a = group_for(0);
    let (h, new_a) = make_update(&a);
    let bytes_a = new_a.serialize().unwrap();
    for me in 1..4u32 {
        let m = group_for(me);
        let new_m = m.process_handshake(&h).unwrap();
        assert_eq!(new_m.epoch, 1);
        assert_eq!(new_m.serialize().unwrap(), bytes_a);
    }
}

#[test]
fn chained_updates_converge() {
    // A updates, then B updates on top; C follows both.
    let a = group_for(0);
    let b = group_for(1);
    let c = group_for(2);
    let (h1, new_a) = make_update(&a);
    let new_b = b.process_handshake(&h1).unwrap();
    let new_c1 = c.process_handshake(&h1).unwrap();
    let fresh = seed(200);
    let update_seed = seed(201);
    let (op, newer_b, conf_key) = new_b.create_update_op(&fresh, &update_seed).unwrap();
    let h2 = new_b.create_handshake(op, &conf_key).unwrap();
    let newer_a = new_a.process_handshake(&h2).unwrap();
    let newer_c = new_c1.process_handshake(&h2).unwrap();
    assert_eq!(newer_a.epoch, 2);
    let ser = newer_b.serialize().unwrap();
    assert_eq!(newer_a.serialize().unwrap(), ser);
    assert_eq!(newer_c.serialize().unwrap(), ser);
}

#[test]
fn tamper_detection() {
    let a = group_for(0);
    let b = group_for(1);
    let (h, _new_a) = make_update(&a);
    let mut confirmation = h.confirmation.clone();
    confirmation[0] ^= 0x01;
    let tampered = Handshake {
        prior_epoch: h.prior_epoch,
        operation: h.operation,
        signer_index: h.signer_index,
        signature: h.signature,
        confirmation,
    };
    let r = b.process_handshake(&tampered);
    assert_eq!(r.err().unwrap(), Error::ConfirmationError);
    // The callee's state is untouched and still at the old epoch.
    assert_eq!(b.epoch, 0);
}

#[test]
fn tampered_signature_is_rejected() {
    let a = group_for(0);
    let b = group_for(1);
    let (h, _new_a) = make_update(&a);
    let mut signature = h.signature.clone();
    signature[5] ^= 0x80;
    let tampered = Handshake {
        prior_epoch: h.prior_epoch,
        operation: h.operation,
        signer_index: h.signer_index,
        signature,
        confirmation: h.confirmation,
    };
    let r = b.process_handshake(&tampered);
    assert_eq!(r.err().unwrap(), Error::SignatureError);
    assert_eq!(b.epoch, 0);
}

#[test]
fn stale_replay_is_rejected() {
    let a = group_for(0);
    let b = group_for(1);
    let (h, _new_a) = make_update(&a);
    let new_b = b.process_handshake(&h).unwrap();
    assert_eq!(new_b.epoch, 1);
    // Replaying the epoch-0 handshake against the epoch-1 state must fail.
    let r = new_b.process_handshake(&h);
    assert_eq!(r.err().unwrap(), Error::EpochMismatchError);
    assert_eq!(new_b.epoch, 1);
}

#[test]
fn premature_handshake_is_rejected() {
    let a = group_for(0);
    let b = group_for(1);
    let (h, new_a) = make_update(&a);
    let _new_b = b.process_handshake(&h).unwrap();
    // A handshake whose prior epoch is ahead of the state is also a
    // mismatch.
    let (h2, _newer) = make_update(&new_a);
    let r = b.process_handshake(&h2);
    assert_eq!(r.err().unwrap(), Error::EpochMismatchError);
}

#[test]
fn own_handshake_is_rejected() {
    let a = group_for(0);
    let (h, _new_a) = make_update(&a);
    let r = a.process_handshake(&h);
    assert_eq!(r.err().unwrap(), Error::ValidationError);
}

#[test]
fn init_operation_is_rejected() {
    let a = group_for(0);
    let b = group_for(1);
    let conf_key = vec![0u8; 32];
    let h = a.create_handshake(GroupOperation::Init, &conf_key).unwrap();
    let r = b.process_handshake(&h);
    assert_eq!(r.err().unwrap(), Error::ValidationError);
}

#[test]
fn bad_signer_index_is_rejected() {
    let a = group_for(0);
    let b = group_for(1);
    let (h, _new_a) = make_update(&a);
    let bad = Handshake {
        prior_epoch: h.prior_epoch,
        operation: h.operation,
        signer_index: 77,
        signature: h.signature,
        confirmation: h.confirmation,
    };
    let r = b.process_handshake(&bad);
    assert_eq!(r.err().unwrap(), Error::ValidationError);
}
