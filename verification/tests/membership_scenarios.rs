//! Add and Remove scenarios over the group state machine.

use molasses::ciphersuite::CipherSuite;
use molasses::credential::Credential;
use molasses::crypto::dh_public_key;
use molasses::errors::Error;
use molasses::group::GroupState;
use molasses::init_key::UserInitKey;

fn seed(tag: u8) -> Vec<u8> {
    let mut v = vec![0u8; 32];
    for i in 0..32 {
        v[i] = tag.wrapping_add(i as u8).wrapping_mul(7).wrapping_add(3);
    }
    v
}

fn group_for(me: u32) -> GroupState {
    let n = 4usize;
    let mut roster: Vec<Option<Credential>> = Vec::new();
    let mut leaf_pks: Vec<Option<Vec<u8>>> = Vec::new();
    for i in 0..n {
        let identity_seed = seed(10 + i as u8);
        let leaf_secret = seed(50 + i as u8);
        let cred = Credential::from_identity_key(vec![b'm', b'e', b'm', i as u8], &identity_seed);
        roster.push(Some(cred));
        leaf_pks.push(Some(dh_public_key(&leaf_secret)));
    }
    let my_identity = seed(10 + me as u8);
    let my_leaf_secret = seed(50 + me as u8);
    let group_secret = seed(99);
    GroupState::new(
        CipherSuite::X25519Sha256Aes128Gcm,
        roster,
        me,
        my_identity,
        &leaf_pks,
        &my_leaf_secret,
        &group_secret,
    )
}

fn newcomer_bundle() -> UserInitKey {
    let identity_seed = seed(44);
    let cred = Credential::from_identity_key(vec![b'n', b'e', b'w'], &identity_seed);
    UserInitKey::new_from_random(
        &identity_seed,
        vec![0x01],
        cred,
        vec![CipherSuite::X25519Sha256Aes128Gcm],
        vec![1u8],
        &vec![seed(88)],
    )
    .unwrap()
}

#[test]
fn add_convergence() {
    let a = group_for(0);
    let (op, new_a, ck) = a.create_add_op(4, newcomer_bundle(), vec![0u8; 8]).unwrap();
    let h = a.create_handshake(op, &ck).unwrap();
    assert_eq!(new_a.epoch, 1);
    // The tree grew one level to host the fifth leaf.
    let bytes_a = new_a.serialize().unwrap();
    for me in 1..4u32 {
        let m = group_for(me);
        let new_m = m.process_handshake(&h).unwrap();
        assert_eq!(new_m.epoch, 1);
        assert_eq!(new_m.serialize().unwrap(), bytes_a);
    }
}

#[test]
fn add_out_of_range_slot_rejected() {
    let a = group_for(0);
    let r = a.create_add_op(9, newcomer_bundle(), vec![]);
    assert_eq!(r.err().unwrap(), Error::ValidationError);
}

#[test]
fn add_to_occupied_slot_rejected() {
    let a = group_for(0);
    let r = a.create_add_op(2, newcomer_bundle(), vec![]);
    assert_eq!(r.err().unwrap(), Error::ValidationError);
}

#[test]
fn add_with_tampered_bundle_rejected() {
    let a = group_for(0);
    let mut bundle = newcomer_bundle();
    bundle.user_init_key_id[0] ^= 1;
    let r = a.create_add_op(4, bundle, vec![]);
    assert_eq!(r.err().unwrap(), Error::SignatureError);
}

#[test]
fn remove_convergence() {
    let a = group_for(0);
    let fresh = seed(150);
    let update_seed = seed(151);
    let (op, new_a, ck) = a.create_remove_op(3, &fresh, &update_seed).unwrap();
    let h = a.create_handshake(op, &ck).unwrap();
    assert_eq!(new_a.epoch, 1);
    let bytes_a = new_a.serialize().unwrap();
    for me in 1..3u32 {
        let m = group_for(me);
        let new_m = m.process_handshake(&h).unwrap();
        assert_eq!(new_m.epoch, 1);
        assert_eq!(new_m.serialize().unwrap(), bytes_a);
    }
    // The removed member cannot process its own removal.
    let d = group_for(3);
    assert_eq!(d.process_handshake(&h).err().unwrap(), Error::ValidationError);
}

#[test]
fn remove_then_update_converges() {
    let a = group_for(0);
    let b = group_for(1);
    let (op, new_a, ck) = a.create_remove_op(3, &seed(150), &seed(151)).unwrap();
    let h = a.create_handshake(op, &ck).unwrap();
    let new_b = b.process_handshake(&h).unwrap();
    // B refreshes its path on the shrunken group; A follows.
    let (op2, newer_b, ck2) = new_b.create_update_op(&seed(160), &seed(161)).unwrap();
    let h2 = new_b.create_handshake(op2, &ck2).unwrap();
    let newer_a = new_a.process_handshake(&h2).unwrap();
    assert_eq!(newer_a.epoch, 2);
    assert_eq!(newer_a.serialize().unwrap(), newer_b.serialize().unwrap());
}

#[test]
fn remove_of_empty_slot_rejected() {
    let a = group_for(0);
    let (op, new_a, ck) = a.create_remove_op(3, &seed(150), &seed(151)).unwrap();
    let _ = (op, ck);
    let r = new_a.create_remove_op(3, &seed(152), &seed(153));
    assert_eq!(r.err().unwrap(), Error::ValidationError);
}

#[test]
fn remove_self_rejected() {
    let a = group_for(0);
    let r = a.create_remove_op(0, &seed(150), &seed(151));
    assert_eq!(r.err().unwrap(), Error::ValidationError);
}
