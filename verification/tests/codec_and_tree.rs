//! The wire-encoding primitives and the ratchet tree's structure.

use molasses::codec::{append_be2, append_be4, append_raw, append_with_len_u16, append_with_len_u8};
use molasses::tree::{blank_node, depth_of_size, node_from_secret, RatchetTree};

#[test]
fn big_endian_encodings() {
    let mut out: Vec<u8> = Vec::new();
    append_be2(&mut out, 0x1234);
    append_be4(&mut out, 0xdeadbeef);
    assert_eq!(out, vec![0x12, 0x34, 0xde, 0xad, 0xbe, 0xef]);
}

#[test]
fn length_prefixes() {
    let mut out: Vec<u8> = Vec::new();
    assert!(append_with_len_u8(&mut out, &vec![7u8, 8u8]));
    assert!(append_with_len_u16(&mut out, &vec![9u8]));
    assert_eq!(out, vec![2, 7, 8, 0, 1, 9]);
    // A body too long for a one-byte prefix is refused, appending nothing.
    let long = vec![0u8; 256];
    assert!(!append_with_len_u8(&mut out, &long));
    assert_eq!(out.len(), 6);
    let mut raw: Vec<u8> = Vec::new();
    append_raw(&mut raw, &vec![1u8, 2u8, 3u8]);
    assert_eq!(raw, vec![1, 2, 3]);
}

#[test]
fn blank_tree_sizes_round_up_to_powers_of_two() {
    assert_eq!(RatchetTree::new_blank(1).node_count(), 1);
    assert_eq!(RatchetTree::new_blank(2).node_count(), 3);
    assert_eq!(RatchetTree::new_blank(3).node_count(), 7);
    assert_eq!(RatchetTree::new_blank(4).node_count(), 7);
    assert_eq!(RatchetTree::new_blank(5).node_count(), 15);
}

#[test]
fn tree_depths() {
    assert_eq!(depth_of_size(1), 0);
    assert_eq!(depth_of_size(3), 1);
    assert_eq!(depth_of_size(7), 2);
    assert_eq!(depth_of_size(15), 3);
}

#[test]
fn root_secret_follows_node_material() {
    let mut tree = RatchetTree::new_blank(2);
    assert!(tree.root_secret().is_none());
    let secret = vec![5u8; 32];
    tree.set_node(1, node_from_secret(&secret));
    assert_eq!(tree.root_secret().unwrap(), &secret);
    tree.set_node(1, blank_node());
    assert!(tree.root_secret().is_none());
}

#[test]
fn update_direct_path_fills_own_path() {
    let mut tree = RatchetTree::new_blank(4);
    // Give the co-path audience some key material so encryption has
    // recipients: fill the sibling leaf and the right subtree's leaves.
    tree.set_node(2, node_from_secret(&vec![1u8; 32]));
    tree.set_node(4, node_from_secret(&vec![2u8; 32]));
    tree.set_node(6, node_from_secret(&vec![3u8; 32]));
    let fresh = vec![9u8; 32];
    let seed = vec![8u8; 32];
    let msg = tree.update_direct_path(0, &fresh, &seed).unwrap();
    // Leaf, parent, root: three node messages, the leaf's without secrets.
    assert_eq!(msg.node_messages.len(), 3);
    assert_eq!(msg.node_messages[0].node_secrets.len(), 0);
    // One recipient under the sibling leaf, two under the blank right
    // subtree.
    assert_eq!(msg.node_messages[1].node_secrets.len(), 1);
    assert_eq!(msg.node_messages[2].node_secrets.len(), 2);
    assert!(tree.root_secret().is_some());
}

#[test]
fn apply_direct_path_reproduces_public_keys() {
    // Build two copies of a 4-leaf tree where leaves 0 and 2 know their
    // secrets; member at leaf 0 updates, member at leaf 2 applies.
    let secrets = [vec![1u8; 32], vec![2u8; 32], vec![3u8; 32], vec![4u8; 32]];
    let mut sender = RatchetTree::new_blank(4);
    let mut receiver = RatchetTree::new_blank(4);
    for i in 0..4usize {
        let node = node_from_secret(&secrets[i]);
        let pk = node.public_key.clone().unwrap();
        sender.set_node(2 * i, molasses::tree::Node { public_key: Some(pk.clone()), private_key: None });
        receiver.set_node(2 * i, molasses::tree::Node { public_key: Some(pk), private_key: None });
    }
    sender.set_node(0, node_from_secret(&secrets[0]));
    receiver.set_node(2, node_from_secret(&secrets[1]));
    let fresh = vec![9u8; 32];
    let seed = vec![8u8; 32];
    let msg = sender.update_direct_path(0, &fresh, &seed).unwrap();
    let root_secret = receiver.apply_direct_path(&msg, 0, 2).unwrap();
    assert_eq!(root_secret, sender.root_secret().unwrap().clone());
}
