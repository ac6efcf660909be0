//! Group key-agreement core of a secure group-messaging protocol.
//!
//! A set of participants maintains a shared, evolving secret as members are
//! added, removed, or refresh their keying material. The pieces are a binary
//! ratchet tree whose nodes encode partial knowledge of group secrets
//! (`tree`), a per-group state advancing through cryptographically bound
//! epochs (`group`), a key schedule deriving per-epoch secrets (`schedule`),
//! validation of out-of-band join bundles (`init_key`), and a deterministic
//! wire encoding (`codec`). Concrete cryptography is supplied by `ring`
//! through the trusted wrappers in `crypto`.

pub mod aead;
pub mod ciphersuite;
pub mod codec;
pub mod credential;
pub mod crypto;
pub mod errors;
pub mod group;
pub mod init_key;
pub mod laws;
pub mod schedule;
pub mod tree;

use vstd::prelude::*;

verus! {

/// Compares two byte vectors for equality of contents.
pub fn bytes_eq(a: &Vec<u8>, b: &Vec<u8>) -> (r: bool)
    ensures
        r == (a@ == b@),
{
    if a.len() != b.len() {
        proof {
            assert(a@ !~= b@);
        }
        return false;
    }
    let n = a.len();
    let mut i: usize = 0;
    while i < n
        invariant
            n == a@.len() == b@.len(),
            i <= n,
            forall|j: int| 0 <= j < i ==> a@[j] == b@[j],
        decreases n - i,
    {
        if a[i] != b[i] {
            return false;
        }
        i += 1;
    }
    proof {
        assert(a@ =~= b@);
    }
    true
}

/// Copies a byte vector.
pub fn bytes_clone(v: &Vec<u8>) -> (r: Vec<u8>)
    ensures
        r@ == v@,
{
    let mut r: Vec<u8> = Vec::new();
    crate::codec::append_raw(&mut r, v);
    r
}

} // verus!
