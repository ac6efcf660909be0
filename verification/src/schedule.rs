//! The key schedule.
//!
//! A pure extract-then-expand derivation of per-epoch secrets from the
//! tree's root secret (the update secret) and the prior epoch's init
//! secret. Labels keep the outputs cryptographically independent. No state
//! is retained between calls; callers thread the prior init secret
//! explicitly.

use crate::crypto::{hmac_sha256, hmac_sha256_of};
use vstd::prelude::*;

verus! {

/// Domain-separation label: expanding the epoch secret into the next init
/// secret.
pub const LABEL_INIT_SECRET: u8 = 5;

/// Domain-separation label: expanding the epoch secret into the
/// confirmation key.
pub const LABEL_CONFIRMATION_KEY: u8 = 6;

/// The extracted epoch secret: the update secret keyed by the prior init
/// secret.
pub open spec fn epoch_secret_of(update_secret: Seq<u8>, prior_init_secret: Seq<u8>) -> Seq<u8> {
    hmac_sha256_of(prior_init_secret, update_secret)
}

/// The next epoch's init secret.
pub open spec fn init_secret_of(update_secret: Seq<u8>, prior_init_secret: Seq<u8>) -> Seq<u8> {
    hmac_sha256_of(epoch_secret_of(update_secret, prior_init_secret), seq![LABEL_INIT_SECRET])
}

/// The next epoch's confirmation key.
pub open spec fn confirmation_key_of(update_secret: Seq<u8>, prior_init_secret: Seq<u8>) -> Seq<
    u8,
> {
    hmac_sha256_of(epoch_secret_of(update_secret, prior_init_secret), seq![LABEL_CONFIRMATION_KEY])
}

/// The secrets of one epoch. The prior epoch's secrets are not retrievable
/// from these, and a fresh update secret makes future secrets independent
/// of old key material.
pub struct EpochSecrets {
    /// Seeds the next epoch's derivation.
    pub init_secret: Vec<u8>,
    /// Keys the confirmation MAC of the epoch's handshake.
    pub confirmation_key: Vec<u8>,
}

/// Derives the epoch secrets from the update secret and the prior epoch's
/// init secret.
pub fn derive(update_secret: &Vec<u8>, prior_init_secret: &Vec<u8>) -> (r: EpochSecrets)
    ensures
        r.init_secret@ == init_secret_of(update_secret@, prior_init_secret@),
        r.confirmation_key@ == confirmation_key_of(update_secret@, prior_init_secret@),
        r.init_secret@.len() == 32,
        r.confirmation_key@.len() == 32,
{
    let epoch_secret = hmac_sha256(prior_init_secret, update_secret);
    let mut init_label: Vec<u8> = Vec::new();
    init_label.push(LABEL_INIT_SECRET);
    let mut conf_label: Vec<u8> = Vec::new();
    conf_label.push(LABEL_CONFIRMATION_KEY);
    proof {
        assert(init_label@ =~= seq![LABEL_INIT_SECRET]);
        assert(conf_label@ =~= seq![LABEL_CONFIRMATION_KEY]);
    }
    let init_secret = hmac_sha256(&epoch_secret, &init_label);
    let confirmation_key = hmac_sha256(&epoch_secret, &conf_label);
    EpochSecrets { init_secret, confirmation_key }
}

} // verus!
