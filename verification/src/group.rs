//! Group operations, handshakes, and the per-group state machine.
//!
//! A `GroupState` value at epoch `e` is immutable once constructed.
//! Originating a change builds a tree mutation, derives the next epoch's
//! secrets, extends the transcript hash with the serialized operation,
//! signs it, and packages a `Handshake`. Processing a received `Handshake`
//! verifies epoch, signature, operation, and confirmation strictly in that
//! order against a working copy, and only on full success publishes a new
//! `GroupState`; every failure leaves the caller's state untouched.

use crate::bytes_clone;
use crate::bytes_eq;
use crate::ciphersuite::CipherSuite;
use crate::codec::{append_be4, append_u8, append_with_len_u16, append_with_len_u8, be2, be4,
    with_len_u16, with_len_u8};
use crate::credential::Credential;
use crate::crypto::{sha256, sha256_of, sig_sign, sig_sign_of, sig_verifies, sig_verify};
use crate::errors::Error;
use crate::init_key::{suite_wire_id_spec, UserInitKey};
use crate::tree::{DirectPathMessage, DirectPathNodeMessage, EciesCiphertext, RatchetTree};
use vstd::prelude::*;

verus! {

/// Wire tag of the `Init` operation.
pub const OP_TAG_INIT: u8 = 0;

/// Wire tag of the `Add` operation.
pub const OP_TAG_ADD: u8 = 1;

/// Wire tag of the `Update` operation.
pub const OP_TAG_UPDATE: u8 = 2;

/// Wire tag of the `Remove` operation.
pub const OP_TAG_REMOVE: u8 = 3;

/// Operation adding a participant to the group.
pub struct GroupAdd {
    /// Where to add the new participant: an empty roster slot, or the
    /// roster's size to append.
    pub roster_index: u32,
    /// The join bundle providing the new participant's public key.
    pub init_key: UserInitKey,
    /// Hash of the welcome information that preceded this add.
    pub welcome_info_hash: Vec<u8>,
}

/// Operation refreshing the acting member's key material.
pub struct GroupUpdate {
    /// New encrypted secrets for the acting member's direct path.
    pub path: DirectPathMessage,
}

/// Operation removing a participant from the group.
pub struct GroupRemove {
    /// The roster index of the removed participant.
    pub removed_roster_index: u32,
    /// New entropy for the tree, from the acting member's direct path.
    pub path: DirectPathMessage,
}

/// The possible group operations.
pub enum GroupOperation {
    /// Group creation; carried for wire compatibility, never processed.
    Init,
    /// Add a member.
    Add(GroupAdd),
    /// Refresh the acting member's path.
    Update(GroupUpdate),
    /// Remove a member.
    Remove(GroupRemove),
}

/// A handshake message: an operation bound to the epoch it was made for,
/// the signer's roster index, a signature over the extended transcript
/// hash, and a confirmation MAC proving possession of the newly derived
/// confirmation key.
pub struct Handshake {
    /// The epoch of the group state this operation extends.
    pub prior_epoch: u32,
    /// The operation performed.
    pub operation: GroupOperation,
    /// Position of the signer in the roster.
    pub signer_index: u32,
    /// Signature over the transcript hash extended by the operation.
    pub signature: Vec<u8>,
    /// MAC over the extended transcript hash and the signature, under the
    /// new epoch's confirmation key.
    pub confirmation: Vec<u8>,
}

/// The encoding of one hybrid ciphertext, over its value.
pub open spec fn enc_ecies_v(c: (Seq<u8>, Seq<u8>)) -> Seq<u8> {
    with_len_u16(c.0) + with_len_u16(c.1)
}

/// Whether one hybrid ciphertext's value fits its length prefixes.
pub open spec fn ecies_bounds_v(c: (Seq<u8>, Seq<u8>)) -> bool {
    c.0.len() < 0x10000 && c.1.len() < 0x10000
}

/// The concatenated encodings of a ciphertext list, over its values.
pub open spec fn enc_ecies_list_body_v(s: Seq<(Seq<u8>, Seq<u8>)>) -> Seq<u8>
    decreases s.len(),
{
    if s.len() == 0 {
        Seq::<u8>::empty()
    } else {
        enc_ecies_list_body_v(s.drop_last()) + enc_ecies_v(s.last())
    }
}

/// The encoding of one direct-path node message, over its value.
pub open spec fn enc_node_message_v(m: crate::tree::DirectPathNodeMessageView) -> Seq<u8> {
    with_len_u16(m.public_key) + with_len_u16(enc_ecies_list_body_v(m.node_secrets))
}

/// Whether one direct-path node message's value fits its length prefixes.
pub open spec fn node_message_bounds_v(m: crate::tree::DirectPathNodeMessageView) -> bool {
    &&& m.public_key.len() < 0x10000
    &&& forall|i: int| 0 <= i < m.node_secrets.len() ==> ecies_bounds_v(#[trigger] m.node_secrets[i])
    &&& enc_ecies_list_body_v(m.node_secrets).len() < 0x10000
}

/// The concatenated encodings of a direct path's node messages, over their
/// values.
pub open spec fn enc_path_body_v(s: Seq<crate::tree::DirectPathNodeMessageView>) -> Seq<u8>
    decreases s.len(),
{
    if s.len() == 0 {
        Seq::<u8>::empty()
    } else {
        enc_path_body_v(s.drop_last()) + enc_node_message_v(s.last())
    }
}

/// Whether a direct path's values fit their length prefixes.
pub open spec fn path_bounds_v(s: Seq<crate::tree::DirectPathNodeMessageView>) -> bool {
    &&& forall|i: int| 0 <= i < s.len() ==> node_message_bounds_v(#[trigger] s[i])
    &&& enc_path_body_v(s).len() < 0x10000
}

/// The encoding of one hybrid ciphertext.
pub open spec fn enc_ecies(c: EciesCiphertext) -> Seq<u8> {
    enc_ecies_v(c@)
}

/// Whether one hybrid ciphertext fits its length prefixes.
pub open spec fn ecies_bounds_ok(c: EciesCiphertext) -> bool {
    ecies_bounds_v(c@)
}

/// The concatenated encodings of a ciphertext list.
pub open spec fn enc_ecies_list_body(s: Seq<EciesCiphertext>) -> Seq<u8> {
    enc_ecies_list_body_v(crate::tree::cts_views(s))
}

/// The encoding of one direct-path node message.
pub open spec fn enc_node_message(m: DirectPathNodeMessage) -> Seq<u8> {
    enc_node_message_v(m@)
}

/// Whether one direct-path node message fits its length prefixes.
pub open spec fn node_message_bounds_ok(m: DirectPathNodeMessage) -> bool {
    node_message_bounds_v(m@)
}

/// The concatenated encodings of a direct path's node messages.
pub open spec fn enc_path_body(s: Seq<DirectPathNodeMessage>) -> Seq<u8> {
    enc_path_body_v(s.map_values(|m: DirectPathNodeMessage| m@))
}

/// The encoding of a direct-path message.
pub open spec fn enc_path(p: DirectPathMessage) -> Seq<u8> {
    with_len_u16(enc_path_body_v(p@))
}

/// Whether a direct-path message fits its length prefixes.
pub open spec fn path_bounds_ok(p: DirectPathMessage) -> bool {
    path_bounds_v(p@)
}

/// The values of the direct-path message an update from leaf `leaf` of
/// tree `t` with fresh secret `fresh` and encryption seed `seed` produces:
/// its contents are a pure function of those inputs.
pub open spec fn update_msg_views(
    t: Seq<crate::tree::NodeView>,
    leaf: int,
    fresh: Seq<u8>,
    seed: Seq<u8>,
) -> Seq<crate::tree::DirectPathNodeMessageView> {
    let n = t.len() as int;
    Seq::new(
        (crate::tree::depth_of(n) + 1) as nat,
        |d: int|
            crate::tree::DirectPathNodeMessageView {
                public_key: crate::crypto::dh_pub_of(crate::tree::chain_secret(fresh, d)),
                node_secrets: if d == 0 {
                    Seq::<(Seq<u8>, Seq<u8>)>::empty()
                } else {
                    crate::tree::res_seal_views(
                        t,
                        crate::tree::co_span(0, n, leaf, d).0,
                        crate::tree::co_span(0, n, leaf, d).1,
                        seed,
                        crate::tree::chain_secret(fresh, d),
                    )->Some_0
                },
            },
    )
}

/// Whether that produced message fits the wire format's length prefixes.
pub open spec fn update_msg_fits(
    t: Seq<crate::tree::NodeView>,
    leaf: int,
    fresh: Seq<u8>,
    seed: Seq<u8>,
) -> bool {
    path_bounds_v(update_msg_views(t, leaf, fresh, seed))
}

/// The full encoding of a join bundle: the signed part, then the signature.
pub open spec fn enc_init_key(u: UserInitKey) -> Seq<u8> {
    u.enc_partial() + with_len_u16(u.signature@)
}

/// Whether a join bundle fits its length prefixes.
pub open spec fn init_key_bounds_ok(u: UserInitKey) -> bool {
    u.enc_bounds_ok() && u.signature@.len() < 0x10000
}

/// The canonical encoding of a group operation: a one-byte tag, then the
/// variant's body.
pub open spec fn enc_op(op: GroupOperation) -> Seq<u8> {
    match op {
        GroupOperation::Init => seq![OP_TAG_INIT],
        GroupOperation::Add(a) => seq![OP_TAG_ADD] + be4(a.roster_index as int) + enc_init_key(
            a.init_key,
        ) + with_len_u8(a.welcome_info_hash@),
        GroupOperation::Update(u) => seq![OP_TAG_UPDATE] + enc_path(u.path),
        GroupOperation::Remove(r) => seq![OP_TAG_REMOVE] + be4(r.removed_roster_index as int)
            + enc_path(r.path),
    }
}

/// Whether a group operation fits its length prefixes.
pub open spec fn op_bounds_ok(op: GroupOperation) -> bool {
    match op {
        GroupOperation::Init => true,
        GroupOperation::Add(a) => init_key_bounds_ok(a.init_key) && a.welcome_info_hash@.len()
            < 0x100,
        GroupOperation::Update(u) => path_bounds_ok(u.path),
        GroupOperation::Remove(r) => path_bounds_ok(r.path),
    }
}

/// Appends one hybrid ciphertext.
fn append_ecies(out: &mut Vec<u8>, c: &EciesCiphertext) -> (ok: bool)
    ensures
        ok <==> ecies_bounds_ok(*c),
        ok ==> final(out)@ == old(out)@ + enc_ecies(*c),
{
    let len0 = out.len();
    if !append_with_len_u16(out, &c.ephemeral_public_key) {
        return false;
    }
    if !append_with_len_u16(out, &c.ciphertext) {
        out.truncate(len0);
        return false;
    }
    true
}

/// Appends one direct-path node message.
fn append_node_message(out: &mut Vec<u8>, m: &DirectPathNodeMessage) -> (ok: bool)
    ensures
        ok <==> node_message_bounds_ok(*m),
        ok ==> final(out)@ == old(out)@ + enc_node_message(*m),
{
    let len0 = out.len();
    if !append_with_len_u16(out, &m.public_key) {
        return false;
    }
    let mut body: Vec<u8> = Vec::new();
    let n = m.node_secrets.len();
    let mut i: usize = 0;
    while i < n
        invariant
            n == m.node_secrets@.len(),
            i <= n,
            out@ == old(out)@ + with_len_u16(m.public_key@),
            len0 == old(out)@.len(),
            body@ == enc_ecies_list_body(m.node_secrets@.take(i as int)),
            forall|j: int| 0 <= j < i ==> ecies_bounds_ok(#[trigger] m.node_secrets@[j]),
        decreases n - i,
    {
        if !append_ecies(&mut body, &m.node_secrets[i]) {
            proof {
                assert(m@.node_secrets[i as int] == (m.node_secrets@[i as int])@);
            }
            out.truncate(len0);
            return false;
        }
        i += 1;
        proof {
            assert(crate::tree::cts_views(m.node_secrets@.take(i as int)).drop_last()
                =~= crate::tree::cts_views(m.node_secrets@.take(i as int - 1)));
            assert(crate::tree::cts_views(m.node_secrets@.take(i as int)).last() == (
            m.node_secrets@[i as int - 1])@);
            assert(body@ =~= enc_ecies_list_body(m.node_secrets@.take(i as int)));
        }
    }
    proof {
        assert(crate::tree::cts_views(m.node_secrets@.take(n as int)) =~= crate::tree::cts_views(
            m.node_secrets@,
        ));
        assert forall|j: int| 0 <= j < n implies ecies_bounds_v(
            #[trigger] m@.node_secrets[j],
        ) by {
            assert(m@.node_secrets[j] == (m.node_secrets@[j])@);
        }
    }
    let ghost mid = out@;
    if !append_with_len_u16(out, &body) {
        out.truncate(len0);
        return false;
    }
    proof {
        assert(body@ == enc_ecies_list_body(m.node_secrets@));
        assert(out@ == mid + with_len_u16(body@));
        assert(mid == old(out)@ + with_len_u16(m.public_key@));
        assert(out@ =~= old(out)@ + enc_node_message(*m));
    }
    true
}

/// Appends a direct-path message.
fn append_path(out: &mut Vec<u8>, p: &DirectPathMessage) -> (ok: bool)
    ensures
        ok <==> path_bounds_ok(*p),
        ok ==> final(out)@ == old(out)@ + enc_path(*p),
{
    let mut body: Vec<u8> = Vec::new();
    let n = p.node_messages.len();
    let mut i: usize = 0;
    while i < n
        invariant
            n == p.node_messages@.len(),
            i <= n,
            out@ == old(out)@,
            body@ == enc_path_body(p.node_messages@.take(i as int)),
            forall|j: int| 0 <= j < i ==> node_message_bounds_ok(#[trigger] p.node_messages@[j]),
        decreases n - i,
    {
        if !append_node_message(&mut body, &p.node_messages[i]) {
            proof {
                assert(p@[i as int] == (p.node_messages@[i as int])@);
            }
            return false;
        }
        i += 1;
        proof {
            let views = |m: DirectPathNodeMessage| m@;
            assert(p.node_messages@.take(i as int).map_values(views).drop_last()
                =~= p.node_messages@.take(i as int - 1).map_values(views));
            assert(p.node_messages@.take(i as int).map_values(views).last() == (p.node_messages@[
            i as int - 1])@);
            assert(body@ =~= enc_path_body(p.node_messages@.take(i as int)));
        }
    }
    proof {
        let views = |m: DirectPathNodeMessage| m@;
        assert(p.node_messages@.take(n as int).map_values(views) =~= p@);
        assert forall|j: int| 0 <= j < n implies node_message_bounds_v(#[trigger] p@[j]) by {
            assert(p@[j] == (p.node_messages@[j])@);
        }
    }
    append_with_len_u16(out, &body)
}

/// Appends a join bundle in full wire form.
fn append_init_key(out: &mut Vec<u8>, u: &UserInitKey) -> (ok: bool)
    ensures
        ok <==> init_key_bounds_ok(*u),
        ok ==> final(out)@ == old(out)@ + enc_init_key(*u),
{
    let len0 = out.len();
    let partial = match u.encode_partial() {
        Ok(v) => v,
        Err(_) => {
            return false;
        },
    };
    crate::codec::append_raw(out, &partial);
    if !append_with_len_u16(out, &u.signature) {
        out.truncate(len0);
        proof {
            assert(out@ =~= old(out)@);
        }
        return false;
    }
    true
}

/// Encodes a group operation in canonical wire form. Fails exactly when
/// some field is too long for its length prefix.
pub fn encode_op(op: &GroupOperation) -> (r: Result<Vec<u8>, Error>)
    ensures
        r is Ok <==> op_bounds_ok(*op),
        r matches Ok(v) ==> v@ == enc_op(*op),
        r is Err ==> r == Err::<Vec<u8>, Error>(Error::ValidationError),
{
    let mut out: Vec<u8> = Vec::new();
    match op {
        GroupOperation::Init => {
            append_u8(&mut out, OP_TAG_INIT);
            proof {
                assert(out@ =~= enc_op(*op));
            }
            Ok(out)
        },
        GroupOperation::Add(a) => {
            append_u8(&mut out, OP_TAG_ADD);
            append_be4(&mut out, a.roster_index);
            if !append_init_key(&mut out, &a.init_key) {
                return Err(Error::ValidationError);
            }
            if !append_with_len_u8(&mut out, &a.welcome_info_hash) {
                return Err(Error::ValidationError);
            }
            Ok(out)
        },
        GroupOperation::Update(u) => {
            append_u8(&mut out, OP_TAG_UPDATE);
            if !append_path(&mut out, &u.path) {
                return Err(Error::ValidationError);
            }
            Ok(out)
        },
        GroupOperation::Remove(rm) => {
            append_u8(&mut out, OP_TAG_REMOVE);
            append_be4(&mut out, rm.removed_roster_index);
            if !append_path(&mut out, &rm.path) {
                return Err(Error::ValidationError);
            }
            Ok(out)
        },
    }
}

/// The transcript hash extended by a serialized operation.
pub open spec fn extended_transcript(transcript: Seq<u8>, op: GroupOperation) -> Seq<u8> {
    sha256_of(transcript + enc_op(op))
}

/// The confirmation MAC of a handshake: the extended transcript hash and
/// the signature, under the new epoch's confirmation key.
pub open spec fn confirmation_of(conf_key: Seq<u8>, transcript: Seq<u8>, sig: Seq<u8>) -> Seq<u8> {
    crate::crypto::hmac_sha256_of(conf_key, transcript + sig)
}

/// The value of a credential: identity and identity public key.
pub open spec fn cred_view(c: Credential) -> (Seq<u8>, Seq<u8>) {
    (c.identity@, c.public_key@)
}

/// The values of a roster's entries.
pub open spec fn roster_views(r: Seq<Option<Credential>>) -> Seq<Option<(Seq<u8>, Seq<u8>)>> {
    r.map_values(
        |e: Option<Credential>|
            match e {
                Some(c) => Some(cred_view(c)),
                None => None,
            },
    )
}

/// The public part of a tree: each node's public key.
pub open spec fn tree_pub_views(t: Seq<crate::tree::NodeView>) -> Seq<Option<Seq<u8>>> {
    t.map_values(|n: crate::tree::NodeView| n.public_key)
}

/// The per-group state: cipher suite, roster, ratchet tree, epoch counter,
/// transcript hash, and current secrets, together with this member's own
/// roster position and identity key.
pub struct GroupState {
    /// The group's negotiated cipher suite.
    pub cs: CipherSuite,
    /// The member roster; `None` marks an empty (removed or unfilled) slot.
    /// Insertion order is load-bearing: it indexes signers and tree leaves.
    pub roster: Vec<Option<Credential>>,
    /// The binary key tree; leaf `i` belongs to roster slot `i`.
    pub tree: RatchetTree,
    /// The epoch counter, incremented exactly once per committed operation.
    pub epoch: u32,
    /// Rolling hash binding the ordered history of applied operations.
    pub transcript_hash: Vec<u8>,
    /// The current epoch's confirmation key.
    pub confirmation_key: Vec<u8>,
    /// The current epoch's init secret, seeding the next derivation.
    pub init_secret: Vec<u8>,
    /// This member's own roster position.
    pub roster_index: u32,
    /// This member's Ed25519 identity key seed.
    pub identity_key: Vec<u8>,
}

impl GroupState {
    /// Well-formedness of a group state. The roster is capped at 0x4000
    /// entries and the tree (via `RatchetTree::wf`) at 0x10000 nodes so
    /// that every direct-path vector and roster encoding fits the wire
    /// format's two-byte length prefixes, and no index arithmetic can
    /// overflow.
    pub open spec fn wf(self) -> bool {
        &&& self.tree.wf()
        &&& 1 <= self.roster@.len() <= 0x4000
        &&& self.roster@.len() <= self.tree.num_leaves()
        &&& (self.roster_index as int) < self.roster@.len()
        &&& self.roster@[self.roster_index as int] is Some
        &&& forall|i: int|
            0 <= i < self.roster@.len() ==> ((#[trigger] self.roster@[i]) matches Some(c)
                ==> c.wf())
        &&& self.transcript_hash@.len() == 32
        &&& self.confirmation_key@.len() == 32
        &&& self.init_secret@.len() == 32
        &&& self.identity_key@.len() == 32
    }

    /// Agreement of the publicly observable state: everything except
    /// private keys and local secrets.
    pub open spec fn pub_eq(a: GroupState, b: GroupState) -> bool {
        &&& a.cs == b.cs
        &&& a.epoch == b.epoch
        &&& a.transcript_hash@ == b.transcript_hash@
        &&& roster_views(a.roster@) == roster_views(b.roster@)
        &&& tree_pub_views(a.tree@) == tree_pub_views(b.tree@)
    }

    /// The tree leaf index of a roster slot.
    pub open spec fn leaf_of(index: int) -> int {
        2 * index
    }

    /// The handshake's signer names an occupied roster slot.
    pub open spec fn signer_ok(self, h: Handshake) -> bool {
        (h.signer_index as int) < self.roster@.len() && self.roster@[h.signer_index as int]
            is Some
    }

    /// The signer's credential.
    pub open spec fn signer_cred(self, h: Handshake) -> Credential {
        self.roster@[h.signer_index as int]->Some_0
    }

    /// The handshake's signature verifies, under the signer's identity key,
    /// over the transcript hash extended by the operation.
    pub open spec fn sig_ok(self, h: Handshake) -> bool {
        sig_verifies(
            self.signer_cred(h).public_key@,
            extended_transcript(self.transcript_hash@, h.operation),
            h.signature@,
        )
    }
}

/// The all-zero 32-byte update secret an `Add` contributes.
pub open spec fn zero_secret() -> Seq<u8> {
    Seq::new(32, |i: int| 0u8)
}

/// Returns the all-zero 32-byte update secret.
pub fn zero_vec() -> (r: Vec<u8>)
    ensures
        r@ == zero_secret(),
{
    let mut zeros: Vec<u8> = Vec::new();
    let mut z: usize = 0;
    while z < 32
        invariant
            z <= 32,
            zeros@ =~= Seq::new(z as nat, |i: int| 0u8),
        decreases 32 - z,
    {
        zeros.push(0u8);
        proof {
            assert(zeros@ =~= Seq::new((z + 1) as nat, |i: int| 0u8));
        }
        z += 1;
    }
    proof {
        assert(zeros@ =~= zero_secret());
    }
    zeros
}

/// Copies a credential.
pub fn cred_dup(c: &Credential) -> (r: Credential)
    ensures
        cred_view(r) == cred_view(*c),
{
    Credential { identity: bytes_clone(&c.identity), public_key: bytes_clone(&c.public_key) }
}

/// Copies a roster.
pub fn roster_dup(v: &Vec<Option<Credential>>) -> (r: Vec<Option<Credential>>)
    ensures
        roster_views(r@) == roster_views(v@),
        r@.len() == v@.len(),
        forall|j: int|
            0 <= j < v@.len() ==> (((#[trigger] r@[j]) is Some) <==> (v@[j] is Some)),
        forall|j: int|
            0 <= j < v@.len() ==> ((#[trigger] r@[j]) matches Some(c) ==> v@[j] matches Some(c2)
                && cred_view(c) == cred_view(c2)),
{
    let mut r: Vec<Option<Credential>> = Vec::new();
    let n = v.len();
    let mut i: usize = 0;
    while i < n
        invariant
            n == v@.len(),
            i <= n,
            r@.len() == i,
            forall|j: int| 0 <= j < i ==> (((#[trigger] r@[j]) is Some) <==> (v@[j] is Some)),
            forall|j: int|
                0 <= j < i ==> ((#[trigger] r@[j]) matches Some(c) ==> v@[j] matches Some(c2)
                    && cred_view(c) == cred_view(c2)),
        decreases n - i,
    {
        let e = match &v[i] {
            Some(c) => Some(cred_dup(c)),
            None => None,
        };
        r.push(e);
        i += 1;
    }
    proof {
        assert(roster_views(r@) =~= roster_views(v@));
    }
    r
}

impl GroupState {
    /// Forms a group at epoch 0: a blank internal tree over the members'
    /// leaf public keys, this member's own leaf keyed from its secret, and
    /// epoch-0 secrets derived from the shared group-creation secret.
    pub fn new(
        cs: CipherSuite,
        roster: Vec<Option<Credential>>,
        my_index: u32,
        identity_key: Vec<u8>,
        leaf_public_keys: &Vec<Option<Vec<u8>>>,
        my_leaf_secret: &Vec<u8>,
        initial_init_secret: &Vec<u8>,
    ) -> (r: GroupState)
        requires
            1 <= roster@.len() <= 0x4000,
            (my_index as int) < roster@.len(),
            roster@[my_index as int] is Some,
            forall|i: int|
                0 <= i < roster@.len() ==> ((#[trigger] roster@[i]) matches Some(c) ==> c.wf()),
            leaf_public_keys@.len() == roster@.len(),
            forall|i: int|
                0 <= i < leaf_public_keys@.len() ==> ((#[trigger] leaf_public_keys@[i]) matches
                    Some(k) ==> k@.len() == 32),
            my_leaf_secret@.len() == 32,
            identity_key@.len() == 32,
            initial_init_secret@.len() == 32,
        ensures
            r.wf(),
            r.cs == cs,
            r.epoch == 0,
            r.roster@ == roster@,
            r.roster_index == my_index,
            r.identity_key@ == identity_key@,
            r.transcript_hash@ == Seq::new(32nat, |i: int| 0u8),
            r.init_secret@ == crate::schedule::init_secret_of(
                Seq::new(32nat, |i: int| 0u8),
                initial_init_secret@,
            ),
            r.confirmation_key@ == crate::schedule::confirmation_key_of(
                Seq::new(32nat, |i: int| 0u8),
                initial_init_secret@,
            ),
            r.tree@.len() == 2 * crate::tree::pow2_ceil(roster@.len() as int) - 1,
            forall|i: int|
                0 <= i < roster@.len() && i != my_index ==> r.tree@[2 * i] == (
                match #[trigger] leaf_public_keys@[i] {
                    Some(k) => crate::tree::NodeView {
                        public_key: Some(k@),
                        private_key: None,
                    },
                    None => crate::tree::blank_node_view(),
                }),
            r.tree@[2 * (my_index as int)] == crate::tree::node_view_from_secret(my_leaf_secret@),
            forall|j: int|
                0 <= j < r.tree@.len() && (j % 2 == 1 || j >= 2 * roster@.len()) ==> r.tree@[j]
                    == crate::tree::blank_node_view(),
    {
        let n_slots = roster.len();
        let mut tree = RatchetTree::new_blank(n_slots);
        let mut i: usize = 0;
        while i < n_slots
            invariant
                n_slots == roster@.len(),
                1 <= n_slots <= 0x4000,
                leaf_public_keys@.len() == n_slots,
                forall|k: int|
                    0 <= k < leaf_public_keys@.len() ==> ((#[trigger] leaf_public_keys@[k]) matches
                        Some(p) ==> p@.len() == 32),
                (my_index as int) < n_slots,
                my_leaf_secret@.len() == 32,
                i <= n_slots,
                tree.wf(),
                tree@.len() == 2 * crate::tree::pow2_ceil(n_slots as int) - 1,
                tree.num_leaves() == crate::tree::pow2_ceil(n_slots as int),
                n_slots <= tree.num_leaves(),
                forall|k: int|
                    0 <= k < i && k != my_index ==> tree@[2 * k] == (match #[trigger] leaf_public_keys@[k] {
                        Some(p) => crate::tree::NodeView {
                            public_key: Some(p@),
                            private_key: None,
                        },
                        None => crate::tree::blank_node_view(),
                    }),
                i > my_index ==> tree@[2 * (my_index as int)] == crate::tree::node_view_from_secret(
                    my_leaf_secret@,
                ),
                forall|j: int|
                    0 <= j < tree@.len() && (j % 2 == 1 || j >= 2 * i) ==> tree@[j]
                        == crate::tree::blank_node_view(),
            decreases n_slots - i,
        {
            let leaf = 2 * i;
            proof {
                assert(2 * i as int <= 2 * (tree.num_leaves() - 1) < tree@.len());
            }
            if i == my_index as usize {
                tree.set_node(leaf, crate::tree::node_from_secret(my_leaf_secret));
            } else {
                match &leaf_public_keys[i] {
                    Some(pk) => {
                        let node = crate::tree::Node {
                            public_key: Some(bytes_clone(pk)),
                            private_key: None,
                        };
                        tree.set_node(leaf, node);
                    },
                    None => {},
                }
            }
            i += 1;
        }
        let mut zeros: Vec<u8> = Vec::new();
        let mut z: usize = 0;
        while z < 32
            invariant
                z <= 32,
                zeros@ =~= Seq::new(z as nat, |i: int| 0u8),
            decreases 32 - z,
        {
            zeros.push(0u8);
            proof {
                assert(zeros@ =~= Seq::new((z + 1) as nat, |i: int| 0u8));
            }
            z += 1;
        }
        let secrets = crate::schedule::derive(&zeros, initial_init_secret);
        GroupState {
            cs,
            roster,
            tree,
            epoch: 0,
            transcript_hash: bytes_clone(&zeros),
            confirmation_key: secrets.confirmation_key,
            init_secret: secrets.init_secret,
            roster_index: my_index,
            identity_key,
        }
    }

    /// Packages an operation into a signed handshake against this state:
    /// signs the transcript hash extended by the operation, and appends the
    /// confirmation MAC under the supplied new confirmation key.
    pub fn create_handshake(&self, operation: GroupOperation, confirmation_key: &Vec<u8>) -> (r:
        Result<Handshake, Error>)
        requires
            self.wf(),
        ensures
            r is Ok <==> op_bounds_ok(operation),
            r matches Ok(h) ==> ({
                let th2 = extended_transcript(self.transcript_hash@, operation);
                &&& h.prior_epoch == self.epoch
                &&& h.signer_index == self.roster_index
                &&& h.operation == operation
                &&& h.signature@ == sig_sign_of(self.identity_key@, th2)
                &&& h.confirmation@ == confirmation_of(confirmation_key@, th2, h.signature@)
            }),
            r is Err ==> r == Err::<Handshake, Error>(Error::ValidationError),
    {
        let op_bytes = match encode_op(&operation) {
            Ok(v) => v,
            Err(e) => {
                return Err(e);
            },
        };
        let mut data = bytes_clone(&self.transcript_hash);
        crate::codec::append_raw(&mut data, &op_bytes);
        let th2 = sha256(&data);
        let signature = sig_sign(&self.identity_key, &th2);
        let mut conf_data = bytes_clone(&th2);
        crate::codec::append_raw(&mut conf_data, &signature);
        let confirmation = crate::crypto::hmac_sha256(confirmation_key, &conf_data);
        Ok(
            Handshake {
                prior_epoch: self.epoch,
                operation,
                signer_index: self.roster_index,
                signature,
                confirmation,
            },
        )
    }

    /// Originates an update: refreshes this member's direct path from a
    /// fresh secret on a working copy of the tree, derives the next epoch's
    /// secrets, and returns the operation, the committed next state, and
    /// the new confirmation key for `create_handshake`.
    pub fn create_update_op(&self, fresh_secret: &Vec<u8>, seed: &Vec<u8>) -> (r: Result<
        (GroupOperation, GroupState, Vec<u8>),
        Error,
    >)
        requires
            self.wf(),
            self.epoch < 0xFFFF_FFFFu32,
            fresh_secret@.len() == 32,
            seed@.len() == 32,
        ensures
            r matches Ok(t) ==> ({
                let n = self.tree@.len() as int;
                let depth = crate::tree::depth_of(n);
                let leaf = Self::leaf_of(self.roster_index as int);
                let update_secret = crate::tree::chain_secret(fresh_secret@, depth);
                &&& t.0 matches GroupOperation::Update(u) && u.path@.len() == depth + 1 && (forall|
                    d: int,
                |
                    0 <= d <= depth ==> (#[trigger] u.path@[d]).public_key == crate::crypto::dh_pub_of(
                        crate::tree::chain_secret(fresh_secret@, d),
                    ))
                &&& t.1.wf()
                &&& t.1.cs == self.cs
                &&& t.1.epoch == self.epoch + 1
                &&& t.1.roster_index == self.roster_index
                &&& t.1.identity_key@ == self.identity_key@
                &&& roster_views(t.1.roster@) == roster_views(self.roster@)
                &&& t.1.transcript_hash@ == extended_transcript(self.transcript_hash@, t.0)
                &&& t.1.tree@.len() == n
                &&& (forall|j: int|
                    0 <= j < n && !crate::tree::on_path(0, n, leaf, j) ==> t.1.tree@[j]
                        == self.tree@[j])
                &&& (forall|d: int|
                    0 <= d <= depth ==> t.1.tree@[crate::tree::path_node(0, n, leaf, d)]
                        == crate::tree::node_view_from_secret(
                        crate::tree::chain_secret(fresh_secret@, d),
                    ))
                &&& t.1.init_secret@ == crate::schedule::init_secret_of(
                    update_secret,
                    self.init_secret@,
                )
                &&& t.1.confirmation_key@ == crate::schedule::confirmation_key_of(
                    update_secret,
                    self.init_secret@,
                )
                &&& t.2@ == t.1.confirmation_key@
            }),
            r is Ok <==> crate::tree::update_seals_ok(
                self.tree@,
                Self::leaf_of(self.roster_index as int),
                fresh_secret@,
                seed@,
            ) && update_msg_fits(
                self.tree@,
                Self::leaf_of(self.roster_index as int),
                fresh_secret@,
                seed@,
            ),
            r is Err ==> (r == Err::<(GroupOperation, GroupState, Vec<u8>), Error>(
                Error::ValidationError,
            ) || r == Err::<(GroupOperation, GroupState, Vec<u8>), Error>(Error::EncryptionError)),
    {
        let my_leaf = 2 * (self.roster_index as usize);
        proof {
            assert(2 * (self.roster_index as int) <= 2 * (self.tree.num_leaves() - 1)
                < self.tree@.len());
        }
        let mut tree2 = self.tree.dup();
        let msg = match tree2.update_direct_path(my_leaf, fresh_secret, seed) {
            Ok(m) => m,
            Err(e) => {
                proof {
                    assert(!crate::tree::update_seals_ok(
                        self.tree@,
                        my_leaf as int,
                        fresh_secret@,
                        seed@,
                    ));
                }
                return Err(e);
            },
        };
        proof {
            let ni = self.tree@.len() as int;
            let leaf = my_leaf as int;
            let depth = crate::tree::depth_of(ni);
            crate::tree::lemma_depth_nonneg(ni);
            let mv = update_msg_views(self.tree@, leaf, fresh_secret@, seed@);
            assert forall|d: int| 0 <= d <= depth implies msg@[d] == mv[d] by {
                if d == 0 {
                    assert(msg@[0].node_secrets =~= Seq::<(Seq<u8>, Seq<u8>)>::empty());
                } else {
                    assert(crate::tree::res_seal_views(
                        self.tree@,
                        crate::tree::co_span(0, ni, leaf, d).0,
                        crate::tree::co_span(0, ni, leaf, d).1,
                        seed@,
                        crate::tree::chain_secret(fresh_secret@, d),
                    ) == Some(msg@[d].node_secrets));
                }
            }
            assert(msg@ =~= mv);
        }
        let op = GroupOperation::Update(GroupUpdate { path: msg });
        let op_bytes = match encode_op(&op) {
            Ok(v) => v,
            Err(e) => {
                return Err(e);
            },
        };
        let mut data = bytes_clone(&self.transcript_hash);
        crate::codec::append_raw(&mut data, &op_bytes);
        let th2 = sha256(&data);
        proof {
            crate::tree::lemma_depth_nonneg(self.tree@.len() as int);
            crate::tree::lemma_path_span_props(
                0,
                self.tree@.len() as int,
                my_leaf as int,
                crate::tree::depth_of(self.tree@.len() as int),
            );
        }
        let update_secret = match tree2.root_secret() {
            Some(s) => bytes_clone(s),
            None => {
                return Err(Error::EncryptionError);
            },
        };
        let secrets = crate::schedule::derive(&update_secret, &self.init_secret);
        let conf_key = bytes_clone(&secrets.confirmation_key);
        let next = GroupState {
            cs: self.cs,
            roster: roster_dup(&self.roster),
            tree: tree2,
            epoch: self.epoch + 1,
            transcript_hash: th2,
            confirmation_key: secrets.confirmation_key,
            init_secret: secrets.init_secret,
            roster_index: self.roster_index,
            identity_key: bytes_clone(&self.identity_key),
        };
        Ok((op, next, conf_key))
    }

    /// What processing an `Update` guarantees of the committed state: the
    /// roster is unchanged; on the signer's path the tree carries, below
    /// the divergence depth, exactly the message's public keys, and from
    /// it upward the key pairs re-derived from the decrypted secret, each
    /// matching the message; everything off the path is untouched; and the
    /// new epoch secrets derive from the resulting root secret.
    pub open spec fn update_post(s: GroupState, h: Handshake, u: GroupUpdate, ns: GroupState) -> bool {
        let n = s.tree@.len() as int;
        let depth = crate::tree::depth_of(n);
        let sl = Self::leaf_of(h.signer_index as int);
        let me = Self::leaf_of(s.roster_index as int);
        let td = crate::tree::meet_depth(0, n, sl, me);
        let dec = crate::tree::apply_path_dec(s.tree@, u.path@, sl, me);
        let update_secret = crate::tree::chain_secret(dec->Some_0, depth - td);
        &&& h.signer_index != s.roster_index
        &&& u.path@.len() == depth + 1
        &&& dec is Some
        &&& roster_views(ns.roster@) == roster_views(s.roster@)
        &&& ns.tree@.len() == n
        &&& (forall|j: int|
            0 <= j < n && !crate::tree::on_path(0, n, sl, j) ==> ns.tree@[j] == s.tree@[j])
        &&& (forall|d: int|
            0 <= d < td ==> ns.tree@[crate::tree::path_node(0, n, sl, d)] == (
            crate::tree::NodeView {
                public_key: Some((#[trigger] u.path@[d]).public_key),
                private_key: None,
            }))
        &&& (forall|d: int|
            td <= d <= depth ==> ns.tree@[crate::tree::path_node(0, n, sl, d)]
                == crate::tree::node_view_from_secret(
                crate::tree::chain_secret(dec->Some_0, d - td),
            ))
        &&& (forall|d: int|
            td <= d <= depth ==> crate::crypto::dh_pub_of(
                crate::tree::chain_secret(dec->Some_0, d - td),
            ) == (#[trigger] u.path@[d]).public_key)
        &&& ns.init_secret@ == crate::schedule::init_secret_of(update_secret, s.init_secret@)
        &&& ns.confirmation_key@ == crate::schedule::confirmation_key_of(
            update_secret,
            s.init_secret@,
        )
    }

    /// The tree's node count after an `Add`: doubled (one level) exactly
    /// when an appended roster slot outgrows the current leaf count.
    pub open spec fn add_tree_size(s: GroupState, a: GroupAdd) -> int {
        let idx = a.roster_index as int;
        let old_len = s.roster@.len() as int;
        let append = idx == old_len;
        let grow = append && old_len + 1 > s.tree.num_leaves();
        let n0 = s.tree@.len() as int;
        if grow {
            2 * n0 + 1
        } else {
            n0
        }
    }

    /// What applying an `Add` guarantees of the resulting roster and tree
    /// (over their views): the join bundle was valid and verifiably
    /// signed, offered the group's cipher suite, and named an empty or
    /// appended roster slot; the new credential occupies that slot; the
    /// tree grew by at most one level, the new leaf carries the bundle's
    /// public key for the suite, its direct path is blanked, and all other
    /// nodes are untouched (new nodes blank).
    pub open spec fn add_parts_post(
        s: GroupState,
        a: GroupAdd,
        roster2: Seq<Option<Credential>>,
        tree2: Seq<crate::tree::NodeView>,
    ) -> bool {
        let idx = a.roster_index as int;
        let old_len = s.roster@.len() as int;
        let append = idx == old_len;
        let n0 = s.tree@.len() as int;
        let n = Self::add_tree_size(s, a);
        let leaf = Self::leaf_of(a.roster_index as int);
        let depth = crate::tree::depth_of(n);
        let cv = Some(cred_view(a.init_key.credential));
        &&& a.init_key.valid()
        &&& sig_verifies(
            a.init_key.credential.public_key@,
            a.init_key.enc_partial(),
            a.init_key.signature@,
        )
        &&& (exists|i: int|
            0 <= i < a.init_key.cipher_suites@.len() && (#[trigger] a.init_key.cipher_suites@[i])
                == s.cs)
        &&& 0 <= idx <= old_len
        &&& (append ==> old_len + 1 <= 0x4000)
        &&& (!append ==> s.roster@[idx] is None)
        &&& a.init_key.credential.wf()
        &&& roster2.len() == (if append {
            old_len + 1
        } else {
            old_len
        })
        &&& roster_views(roster2) == (if append {
            roster_views(s.roster@).push(cv)
        } else {
            roster_views(s.roster@).update(idx, cv)
        })
        &&& tree2.len() == n
        &&& (forall|j: int|
            0 <= j < n && !crate::tree::on_path(0, n, leaf, j) ==> tree2[j] == (if j < n0 {
                s.tree@[j]
            } else {
                crate::tree::blank_node_view()
            }))
        &&& (exists|i: int|
            0 <= i < a.init_key.cipher_suites@.len() && (#[trigger] a.init_key.cipher_suites@[i])
                == s.cs && tree2[leaf] == (crate::tree::NodeView {
                public_key: Some(a.init_key.init_keys@[i]@),
                private_key: None,
            }))
        &&& (forall|d: int|
            #![trigger crate::tree::path_node(0, n, leaf, d)]
            1 <= d <= depth ==> tree2[crate::tree::path_node(0, n, leaf, d)]
                == crate::tree::blank_node_view())
    }

    /// Exactly when applying an `Add` succeeds: the bundle is valid,
    /// within wire bounds and verifiably signed, offers a 32-byte key for
    /// the group's suite, carries a well-formed credential, and names an
    /// empty or appended roster slot within the roster bound.
    pub open spec fn add_applies(s: GroupState, a: GroupAdd) -> bool {
        let idx = a.roster_index as int;
        let old_len = s.roster@.len() as int;
        let append = idx == old_len;
        &&& a.init_key.valid()
        &&& a.init_key.enc_bounds_ok()
        &&& sig_verifies(
            a.init_key.credential.public_key@,
            a.init_key.enc_partial(),
            a.init_key.signature@,
        )
        &&& (exists|i: int|
            0 <= i < a.init_key.cipher_suites@.len() && (#[trigger] a.init_key.cipher_suites@[i])
                == s.cs)
        &&& (forall|i: int|
            0 <= i < a.init_key.cipher_suites@.len() && (#[trigger] a.init_key.cipher_suites@[i])
                == s.cs ==> a.init_key.init_keys@[i]@.len() == 32)
        &&& a.init_key.credential.wf()
        &&& a.init_key.credential.public_key@.len() == 32
        &&& 0 <= idx <= old_len
        &&& (append ==> old_len + 1 <= 0x4000)
        &&& (!append ==> s.roster@[idx] is None)
    }

    /// What processing an `Add` guarantees of the committed state: the
    /// roster and tree changed as `add_parts_post` says, and the epoch
    /// secrets derive from the all-zero update secret (an add contributes
    /// no fresh entropy; the next update does).
    pub open spec fn add_post(s: GroupState, h: Handshake, a: GroupAdd, ns: GroupState) -> bool {
        &&& Self::add_parts_post(s, a, ns.roster@, ns.tree@)
        &&& ns.init_secret@ == crate::schedule::init_secret_of(zero_secret(), s.init_secret@)
        &&& ns.confirmation_key@ == crate::schedule::confirmation_key_of(
            zero_secret(),
            s.init_secret@,
        )
    }

    /// What processing a `Remove` guarantees of the committed state: the
    /// removed slot is emptied; the removed leaf and every ancestor left
    /// over an all-blank subtree are blanked; and on that blanked tree the
    /// acting member's direct path is replayed exactly as an update, with
    /// the new epoch secrets derived from the resulting root secret.
    pub open spec fn remove_post(
        s: GroupState,
        h: Handshake,
        rm: GroupRemove,
        ns: GroupState,
    ) -> bool {
        let removed = rm.removed_roster_index as int;
        let n = s.tree@.len() as int;
        let depth = crate::tree::depth_of(n);
        let sl = Self::leaf_of(h.signer_index as int);
        let me = Self::leaf_of(s.roster_index as int);
        let rleaf = 2 * removed;
        let ct = crate::tree::cascade_result(s.tree@, rleaf);
        let td = crate::tree::meet_depth(0, n, sl, me);
        let dec = crate::tree::apply_path_dec(ct, rm.path@, sl, me);
        let update_secret = crate::tree::chain_secret(dec->Some_0, depth - td);
        &&& 0 <= removed < s.roster@.len()
        &&& s.roster@[removed] is Some
        &&& removed != s.roster_index as int
        &&& removed != h.signer_index as int
        &&& h.signer_index != s.roster_index
        &&& rm.path@.len() == depth + 1
        &&& dec is Some
        &&& roster_views(ns.roster@) == roster_views(s.roster@).update(removed, None)
        &&& ns.tree@.len() == n
        &&& (forall|j: int|
            0 <= j < n && !crate::tree::on_path(0, n, sl, j) ==> ns.tree@[j] == ct[j])
        &&& (forall|d: int|
            0 <= d < td ==> ns.tree@[crate::tree::path_node(0, n, sl, d)] == (
            crate::tree::NodeView {
                public_key: Some((#[trigger] rm.path@[d]).public_key),
                private_key: None,
            }))
        &&& (forall|d: int|
            td <= d <= depth ==> ns.tree@[crate::tree::path_node(0, n, sl, d)]
                == crate::tree::node_view_from_secret(
                crate::tree::chain_secret(dec->Some_0, d - td),
            ))
        &&& (forall|d: int|
            td <= d <= depth ==> crate::crypto::dh_pub_of(
                crate::tree::chain_secret(dec->Some_0, d - td),
            ) == (#[trigger] rm.path@[d]).public_key)
        &&& ns.init_secret@ == crate::schedule::init_secret_of(update_secret, s.init_secret@)
        &&& ns.confirmation_key@ == crate::schedule::confirmation_key_of(
            update_secret,
            s.init_secret@,
        )
    }

    /// The operation replay of an `Update` succeeds: the signer is another
    /// member and the path replays on this member's tree.
    pub open spec fn update_replays(s: GroupState, h: Handshake, u: GroupUpdate) -> bool {
        &&& h.signer_index != s.roster_index
        &&& crate::tree::apply_ok(
            s.tree@,
            u.path@,
            Self::leaf_of(h.signer_index as int),
            Self::leaf_of(s.roster_index as int),
        )
    }

    /// The handshake's confirmation equals the MAC an `Update` commit
    /// derives: keyed by the confirmation key from the replayed root
    /// secret, over the extended transcript hash and the signature.
    pub open spec fn update_conf_matches(s: GroupState, h: Handshake, u: GroupUpdate) -> bool {
        let n = s.tree@.len() as int;
        let depth = crate::tree::depth_of(n);
        let sl = Self::leaf_of(h.signer_index as int);
        let me = Self::leaf_of(s.roster_index as int);
        let td = crate::tree::meet_depth(0, n, sl, me);
        let dec = crate::tree::apply_path_dec(s.tree@, u.path@, sl, me);
        h.confirmation@ == confirmation_of(
            crate::schedule::confirmation_key_of(
                crate::tree::chain_secret(dec->Some_0, depth - td),
                s.init_secret@,
            ),
            extended_transcript(s.transcript_hash@, h.operation),
            h.signature@,
        )
    }

    /// Exactly when, past the epoch, signer and signature checks, an
    /// `Update` commits: the path replays and the confirmation matches.
    pub open spec fn update_accepts(s: GroupState, h: Handshake, u: GroupUpdate) -> bool {
        Self::update_replays(s, h, u) && Self::update_conf_matches(s, h, u)
    }

    /// The handshake's confirmation equals the MAC an `Add` commit derives,
    /// keyed from the all-zero update secret.
    pub open spec fn add_conf_matches(s: GroupState, h: Handshake) -> bool {
        h.confirmation@ == confirmation_of(
            crate::schedule::confirmation_key_of(zero_secret(), s.init_secret@),
            extended_transcript(s.transcript_hash@, h.operation),
            h.signature@,
        )
    }

    /// Exactly when, past the epoch, signer and signature checks, an `Add`
    /// commits: it applies, and the confirmation matches.
    pub open spec fn add_accepts(s: GroupState, h: Handshake, a: GroupAdd) -> bool {
        Self::add_applies(s, a) && Self::add_conf_matches(s, h)
    }

    /// The operation replay of a `Remove` succeeds: the removed slot is
    /// another occupied slot, the signer is another member, and the path
    /// replays on the blanked tree.
    pub open spec fn remove_replays(s: GroupState, h: Handshake, rm: GroupRemove) -> bool {
        let removed = rm.removed_roster_index as int;
        let ct = crate::tree::cascade_result(s.tree@, 2 * removed);
        &&& h.signer_index != s.roster_index
        &&& 0 <= removed < s.roster@.len()
        &&& s.roster@[removed] is Some
        &&& removed != s.roster_index as int
        &&& removed != h.signer_index as int
        &&& crate::tree::apply_ok(
            ct,
            rm.path@,
            Self::leaf_of(h.signer_index as int),
            Self::leaf_of(s.roster_index as int),
        )
    }

    /// The handshake's confirmation equals the MAC a `Remove` commit
    /// derives from the blanked-and-replayed tree's root secret.
    pub open spec fn remove_conf_matches(s: GroupState, h: Handshake, rm: GroupRemove) -> bool {
        let removed = rm.removed_roster_index as int;
        let n = s.tree@.len() as int;
        let depth = crate::tree::depth_of(n);
        let sl = Self::leaf_of(h.signer_index as int);
        let me = Self::leaf_of(s.roster_index as int);
        let td = crate::tree::meet_depth(0, n, sl, me);
        let ct = crate::tree::cascade_result(s.tree@, 2 * removed);
        let dec = crate::tree::apply_path_dec(ct, rm.path@, sl, me);
        h.confirmation@ == confirmation_of(
            crate::schedule::confirmation_key_of(
                crate::tree::chain_secret(dec->Some_0, depth - td),
                s.init_secret@,
            ),
            extended_transcript(s.transcript_hash@, h.operation),
            h.signature@,
        )
    }

    /// Exactly when, past the epoch, signer and signature checks, a
    /// `Remove` commits: it replays and the confirmation matches.
    pub open spec fn remove_accepts(s: GroupState, h: Handshake, rm: GroupRemove) -> bool {
        Self::remove_replays(s, h, rm) && Self::remove_conf_matches(s, h, rm)
    }

    /// The handshake's confirmation equals the MAC its operation's commit
    /// would derive on this state.
    pub open spec fn op_conf_matches(s: GroupState, h: Handshake) -> bool {
        match h.operation {
            GroupOperation::Init => false,
            GroupOperation::Update(u) => Self::update_conf_matches(s, h, u),
            GroupOperation::Add(a) => Self::add_conf_matches(s, h),
            GroupOperation::Remove(rm) => Self::remove_conf_matches(s, h, rm),
        }
    }

    /// What a successfully processed handshake guarantees of the committed
    /// state: all four checks passed, the epoch advanced by exactly one,
    /// the transcript hash was extended by the operation, the confirmation
    /// bound the new confirmation key, and the operation's effect holds.
    pub open spec fn process_post(s: GroupState, h: Handshake, ns: GroupState) -> bool {
        &&& h.prior_epoch == s.epoch
        &&& s.signer_ok(h)
        &&& op_bounds_ok(h.operation)
        &&& s.sig_ok(h)
        &&& ns.wf()
        &&& ns.cs == s.cs
        &&& ns.roster_index == s.roster_index
        &&& ns.identity_key@ == s.identity_key@
        &&& ns.epoch == s.epoch + 1
        &&& ns.transcript_hash@ == extended_transcript(s.transcript_hash@, h.operation)
        &&& h.confirmation@ == confirmation_of(
            ns.confirmation_key@,
            ns.transcript_hash@,
            h.signature@,
        )
        &&& match h.operation {
            GroupOperation::Init => false,
            GroupOperation::Update(u) => Self::update_post(s, h, u, ns),
            GroupOperation::Add(a) => Self::add_post(s, h, a, ns),
            GroupOperation::Remove(rm) => Self::remove_post(s, h, rm, ns),
        }
    }

    /// Applies an `Add` to working copies of the roster and tree: validates
    /// and verifies the join bundle, checks the slot, inserts the new
    /// credential, grows the tree by one level if the roster outgrew it,
    /// sets the new leaf to the bundle's public key for the group's suite,
    /// and blanks the leaf's direct path.
    fn apply_add_parts(&self, a: &GroupAdd) -> (r: Result<
        (Vec<Option<Credential>>, RatchetTree),
        Error,
    >)
        requires
            self.wf(),
        ensures
            r matches Ok(p) ==> ({
                &&& Self::add_parts_post(*self, *a, p.0@, p.1@)
                &&& p.1.wf()
                &&& forall|j: int|
                    0 <= j < p.0@.len() ==> ((#[trigger] p.0@[j]) matches Some(c) ==> c.wf())
                &&& forall|j: int|
                    0 <= j < self.roster@.len() && j != a.roster_index as int ==> (((
                    #[trigger] p.0@[j]) is Some) <==> (self.roster@[j] is Some))
                &&& p.0@[a.roster_index as int] is Some
                &&& p.0@.len() <= p.1.num_leaves()
                &&& 1 <= p.0@.len() <= 0x4000
            }),
            r is Ok <==> Self::add_applies(*self, *a),
            r is Err ==> (r == Err::<(Vec<Option<Credential>>, RatchetTree), Error>(
                Error::ValidationError,
            ) || r == Err::<(Vec<Option<Credential>>, RatchetTree), Error>(Error::SignatureError)),
    {
        match a.init_key.validate() {
            Ok(_) => {},
            Err(_) => {
                return Err(Error::ValidationError);
            },
        }
        match a.init_key.verify_sig() {
            Ok(_) => {},
            Err(e) => {
                return Err(e);
            },
        }
        let pk = match a.init_key.get_public_key(self.cs) {
            Ok(Some(k)) => k,
            Ok(None) => {
                return Err(Error::ValidationError);
            },
            Err(_) => {
                return Err(Error::ValidationError);
            },
        };
        if pk.len() != 32 {
            return Err(Error::ValidationError);
        }
        if a.init_key.credential.identity.len() >= 0x10000 {
            return Err(Error::ValidationError);
        }
        if a.init_key.credential.public_key.len() != 32 {
            return Err(Error::ValidationError);
        }
        let idx = a.roster_index as usize;
        if a.roster_index as u64 > self.roster.len() as u64 {
            return Err(Error::ValidationError);
        }
        let append = idx == self.roster.len();
        if append && self.roster.len() >= 0x4000 {
            return Err(Error::ValidationError);
        }
        if !append && self.roster[idx].is_some() {
            return Err(Error::ValidationError);
        }
        let mut roster2 = roster_dup(&self.roster);
        let new_cred = cred_dup(&a.init_key.credential);
        if append {
            roster2.push(Some(new_cred));
            proof {
                assert(roster_views(roster2@) =~= roster_views(self.roster@).push(
                    Some(cred_view(a.init_key.credential)),
                ));
            }
        } else {
            roster2[idx] = Some(new_cred);
            proof {
                assert(roster_views(roster2@) =~= roster_views(self.roster@).update(
                    idx as int,
                    Some(cred_view(a.init_key.credential)),
                ));
            }
        }
        let mut tree2 = self.tree.dup();
        let num_leaves = tree2.node_count() / 2 + 1;
        if roster2.len() > num_leaves {
            proof {
                assert(self.tree@.len() < 0x8000);
            }
            tree2.grow();
        }
        let leaf = 2 * idx;
        proof {
            assert(2 * (idx as int) <= 2 * (tree2.num_leaves() - 1) < tree2@.len());
        }
        tree2.add_leaf(leaf, pk);
        Ok((roster2, tree2))
    }

    /// Processes a received handshake against this state, strictly in
    /// order: epoch, signer, signature, operation replay on a working copy,
    /// confirmation; the first failure returns its error with this state
    /// untouched. Success publishes the committed next state.
    pub fn process_handshake(&self, h: &Handshake) -> (r: Result<GroupState, Error>)
        requires
            self.wf(),
            self.epoch < 0xFFFF_FFFFu32,
        ensures
            h.prior_epoch != self.epoch <==> r == Err::<GroupState, Error>(
                Error::EpochMismatchError,
            ),
            h.prior_epoch == self.epoch && !self.signer_ok(*h) ==> r == Err::<GroupState, Error>(
                Error::ValidationError,
            ),
            h.prior_epoch == self.epoch && self.signer_ok(*h) && !op_bounds_ok(h.operation) ==> r
                == Err::<GroupState, Error>(Error::ValidationError),
            h.prior_epoch == self.epoch && self.signer_ok(*h) && op_bounds_ok(h.operation)
                && !self.sig_ok(*h) ==> r == Err::<GroupState, Error>(Error::SignatureError),
            r matches Ok(ns) ==> Self::process_post(*self, *h, ns),
            h.prior_epoch == self.epoch && self.signer_ok(*h) && op_bounds_ok(h.operation)
                && self.sig_ok(*h) ==> (match h.operation {
                GroupOperation::Init => true,
                GroupOperation::Update(u) => Self::update_accepts(*self, *h, u) ==> r is Ok,
                GroupOperation::Add(a) => Self::add_accepts(*self, *h, a) ==> r is Ok,
                GroupOperation::Remove(rm) => Self::remove_accepts(*self, *h, rm) ==> r is Ok,
            }),
            h.prior_epoch == self.epoch && self.signer_ok(*h) && op_bounds_ok(h.operation)
                && self.sig_ok(*h) ==> (match h.operation {
                GroupOperation::Init => true,
                GroupOperation::Update(u) => Self::update_replays(*self, *h, u)
                    && !Self::update_conf_matches(*self, *h, u) ==> r == Err::<GroupState, Error>(
                    Error::ConfirmationError,
                ),
                GroupOperation::Add(a) => Self::add_applies(*self, a) && !Self::add_conf_matches(
                    *self,
                    *h,
                ) ==> r == Err::<GroupState, Error>(Error::ConfirmationError),
                GroupOperation::Remove(rm) => Self::remove_replays(*self, *h, rm)
                    && !Self::remove_conf_matches(*self, *h, rm) ==> r == Err::<GroupState, Error>(
                    Error::ConfirmationError,
                ),
            }),
            r is Err ==> (r == Err::<GroupState, Error>(Error::ValidationError) || r == Err::<
                GroupState,
                Error,
            >(Error::SignatureError) || r == Err::<GroupState, Error>(Error::EncryptionError) || r
                == Err::<GroupState, Error>(Error::ConfirmationError) || r == Err::<
                GroupState,
                Error,
            >(Error::EpochMismatchError)),
    {
        if h.prior_epoch != self.epoch {
            return Err(Error::EpochMismatchError);
        }
        if h.signer_index as usize >= self.roster.len() {
            return Err(Error::ValidationError);
        }
        let cred = match &self.roster[h.signer_index as usize] {
            Some(c) => c,
            None => {
                return Err(Error::ValidationError);
            },
        };
        let op_bytes = match encode_op(&h.operation) {
            Ok(v) => v,
            Err(_) => {
                return Err(Error::ValidationError);
            },
        };
        let mut data = bytes_clone(&self.transcript_hash);
        crate::codec::append_raw(&mut data, &op_bytes);
        let th2 = sha256(&data);
        if !sig_verify(&cred.public_key, &th2, &h.signature) {
            return Err(Error::SignatureError);
        }
        match &h.operation {
            GroupOperation::Init => Err(Error::ValidationError),
            GroupOperation::Update(u) => {
                if h.signer_index == self.roster_index {
                    return Err(Error::ValidationError);
                }
                let sender_leaf = 2 * (h.signer_index as usize);
                let my_leaf = 2 * (self.roster_index as usize);
                proof {
                    assert(2 * (h.signer_index as int) <= 2 * (self.tree.num_leaves() - 1)
                        < self.tree@.len());
                    assert(2 * (self.roster_index as int) <= 2 * (self.tree.num_leaves() - 1)
                        < self.tree@.len());
                }
                let mut tree2 = self.tree.dup();
                let update_secret = match tree2.apply_direct_path(&u.path, sender_leaf, my_leaf) {
                    Ok(v) => v,
                    Err(e) => {
                        return Err(e);
                    },
                };
                let secrets = crate::schedule::derive(&update_secret, &self.init_secret);
                let mut conf_data = bytes_clone(&th2);
                crate::codec::append_raw(&mut conf_data, &h.signature);
                let expected = crate::crypto::hmac_sha256(&secrets.confirmation_key, &conf_data);
                if !bytes_eq(&expected, &h.confirmation) {
                    return Err(Error::ConfirmationError);
                }
                Ok(
                    GroupState {
                        cs: self.cs,
                        roster: roster_dup(&self.roster),
                        tree: tree2,
                        epoch: self.epoch + 1,
                        transcript_hash: th2,
                        confirmation_key: secrets.confirmation_key,
                        init_secret: secrets.init_secret,
                        roster_index: self.roster_index,
                        identity_key: bytes_clone(&self.identity_key),
                    },
                )
            },
            GroupOperation::Add(a) => {
                let parts = match self.apply_add_parts(a) {
                    Ok(p) => p,
                    Err(e) => {
                        return Err(e);
                    },
                };
                let zeros = zero_vec();
                let secrets = crate::schedule::derive(&zeros, &self.init_secret);
                let mut conf_data = bytes_clone(&th2);
                crate::codec::append_raw(&mut conf_data, &h.signature);
                let expected = crate::crypto::hmac_sha256(&secrets.confirmation_key, &conf_data);
                if !bytes_eq(&expected, &h.confirmation) {
                    return Err(Error::ConfirmationError);
                }
                Ok(
                    GroupState {
                        cs: self.cs,
                        roster: parts.0,
                        tree: parts.1,
                        epoch: self.epoch + 1,
                        transcript_hash: th2,
                        confirmation_key: secrets.confirmation_key,
                        init_secret: secrets.init_secret,
                        roster_index: self.roster_index,
                        identity_key: bytes_clone(&self.identity_key),
                    },
                )
            },
            GroupOperation::Remove(rm) => {
                if h.signer_index == self.roster_index {
                    return Err(Error::ValidationError);
                }
                if rm.removed_roster_index as u64 >= self.roster.len() as u64 {
                    return Err(Error::ValidationError);
                }
                let removed = rm.removed_roster_index as usize;
                if self.roster[removed].is_none() {
                    return Err(Error::ValidationError);
                }
                if rm.removed_roster_index == self.roster_index {
                    return Err(Error::ValidationError);
                }
                if rm.removed_roster_index == h.signer_index {
                    return Err(Error::ValidationError);
                }
                let rleaf = 2 * removed;
                let sender_leaf = 2 * (h.signer_index as usize);
                let my_leaf = 2 * (self.roster_index as usize);
                proof {
                    assert(2 * (removed as int) <= 2 * (self.tree.num_leaves() - 1)
                        < self.tree@.len());
                    assert(2 * (h.signer_index as int) <= 2 * (self.tree.num_leaves() - 1)
                        < self.tree@.len());
                    assert(2 * (self.roster_index as int) <= 2 * (self.tree.num_leaves() - 1)
                        < self.tree@.len());
                }
                let mut tree2 = self.tree.dup();
                tree2.blank_leaf_cascade(rleaf);
                proof {
                    crate::tree::lemma_cascade_result(self.tree@, rleaf as int, tree2@);
                }
                let update_secret = match tree2.apply_direct_path(&rm.path, sender_leaf, my_leaf) {
                    Ok(v) => v,
                    Err(e) => {
                        return Err(e);
                    },
                };
                let secrets = crate::schedule::derive(&update_secret, &self.init_secret);
                let mut conf_data = bytes_clone(&th2);
                crate::codec::append_raw(&mut conf_data, &h.signature);
                let expected = crate::crypto::hmac_sha256(&secrets.confirmation_key, &conf_data);
                if !bytes_eq(&expected, &h.confirmation) {
                    return Err(Error::ConfirmationError);
                }
                let mut roster2 = roster_dup(&self.roster);
                roster2[removed] = None;
                proof {
                    assert(roster_views(roster2@) =~= roster_views(self.roster@).update(
                        removed as int,
                        None,
                    ));
                }
                Ok(
                    GroupState {
                        cs: self.cs,
                        roster: roster2,
                        tree: tree2,
                        epoch: self.epoch + 1,
                        transcript_hash: th2,
                        confirmation_key: secrets.confirmation_key,
                        init_secret: secrets.init_secret,
                        roster_index: self.roster_index,
                        identity_key: bytes_clone(&self.identity_key),
                    },
                )
            },
        }
    }

    /// Originates a remove: blanks the removed member's leaf (and any
    /// ancestors left over an all-blank subtree) on a working copy, then
    /// refreshes this member's own direct path on that tree with fresh
    /// entropy, derives the next epoch's secrets from the new root secret,
    /// and returns the operation, the committed next state, and the new
    /// confirmation key for `create_handshake`.
    pub fn create_remove_op(&self, removed_index: u32, fresh_secret: &Vec<u8>, seed: &Vec<u8>) -> (r:
        Result<(GroupOperation, GroupState, Vec<u8>), Error>)
        requires
            self.wf(),
            self.epoch < 0xFFFF_FFFFu32,
            fresh_secret@.len() == 32,
            seed@.len() == 32,
        ensures
            r matches Ok(t) ==> ({
                let removed = removed_index as int;
                let n = self.tree@.len() as int;
                let depth = crate::tree::depth_of(n);
                let leaf = Self::leaf_of(self.roster_index as int);
                let ct = crate::tree::cascade_result(self.tree@, 2 * removed);
                let update_secret = crate::tree::chain_secret(fresh_secret@, depth);
                &&& 0 <= removed < self.roster@.len()
                &&& self.roster@[removed] is Some
                &&& removed != self.roster_index as int
                &&& t.0 matches GroupOperation::Remove(rm) && rm.removed_roster_index
                    == removed_index && rm.path@.len() == depth + 1 && (forall|d: int|
                    0 <= d <= depth ==> (#[trigger] rm.path@[d]).public_key == crate::crypto::dh_pub_of(
                        crate::tree::chain_secret(fresh_secret@, d),
                    ))
                &&& t.1.wf()
                &&& t.1.cs == self.cs
                &&& t.1.epoch == self.epoch + 1
                &&& t.1.roster_index == self.roster_index
                &&& t.1.identity_key@ == self.identity_key@
                &&& roster_views(t.1.roster@) == roster_views(self.roster@).update(removed, None)
                &&& t.1.transcript_hash@ == extended_transcript(self.transcript_hash@, t.0)
                &&& t.1.tree@.len() == n
                &&& (forall|j: int|
                    0 <= j < n && !crate::tree::on_path(0, n, leaf, j) ==> t.1.tree@[j] == ct[j])
                &&& (forall|d: int|
                    0 <= d <= depth ==> t.1.tree@[crate::tree::path_node(0, n, leaf, d)]
                        == crate::tree::node_view_from_secret(
                        crate::tree::chain_secret(fresh_secret@, d),
                    ))
                &&& t.1.init_secret@ == crate::schedule::init_secret_of(
                    update_secret,
                    self.init_secret@,
                )
                &&& t.1.confirmation_key@ == crate::schedule::confirmation_key_of(
                    update_secret,
                    self.init_secret@,
                )
                &&& t.2@ == t.1.confirmation_key@
            }),
            r is Ok <==> ({
                let removed = removed_index as int;
                let ct = crate::tree::cascade_result(self.tree@, 2 * removed);
                let leaf = Self::leaf_of(self.roster_index as int);
                &&& 0 <= removed < self.roster@.len()
                &&& self.roster@[removed] is Some
                &&& removed != self.roster_index as int
                &&& crate::tree::update_seals_ok(ct, leaf, fresh_secret@, seed@)
                &&& update_msg_fits(ct, leaf, fresh_secret@, seed@)
            }),
            r is Err ==> (r == Err::<(GroupOperation, GroupState, Vec<u8>), Error>(
                Error::ValidationError,
            ) || r == Err::<(GroupOperation, GroupState, Vec<u8>), Error>(Error::EncryptionError)),
    {
        if removed_index as u64 >= self.roster.len() as u64 {
            return Err(Error::ValidationError);
        }
        let removed = removed_index as usize;
        if self.roster[removed].is_none() {
            return Err(Error::ValidationError);
        }
        if removed_index == self.roster_index {
            return Err(Error::ValidationError);
        }
        let rleaf = 2 * removed;
        let my_leaf = 2 * (self.roster_index as usize);
        proof {
            assert(2 * (removed as int) <= 2 * (self.tree.num_leaves() - 1) < self.tree@.len());
            assert(2 * (self.roster_index as int) <= 2 * (self.tree.num_leaves() - 1)
                < self.tree@.len());
        }
        let mut tree2 = self.tree.dup();
        tree2.blank_leaf_cascade(rleaf);
        proof {
            crate::tree::lemma_cascade_result(self.tree@, rleaf as int, tree2@);
        }
        let ghost ct = crate::tree::cascade_result(self.tree@, rleaf as int);
        let msg = match tree2.update_direct_path(my_leaf, fresh_secret, seed) {
            Ok(m) => m,
            Err(e) => {
                proof {
                    assert(!crate::tree::update_seals_ok(ct, my_leaf as int, fresh_secret@, seed@));
                }
                return Err(e);
            },
        };
        proof {
            let ni = self.tree@.len() as int;
            let leaf = my_leaf as int;
            let depth = crate::tree::depth_of(ni);
            crate::tree::lemma_depth_nonneg(ni);
            let mv = update_msg_views(ct, leaf, fresh_secret@, seed@);
            assert forall|d: int| 0 <= d <= depth implies msg@[d] == mv[d] by {
                if d == 0 {
                    assert(msg@[0].node_secrets =~= Seq::<(Seq<u8>, Seq<u8>)>::empty());
                } else {
                    assert(crate::tree::res_seal_views(
                        ct,
                        crate::tree::co_span(0, ni, leaf, d).0,
                        crate::tree::co_span(0, ni, leaf, d).1,
                        seed@,
                        crate::tree::chain_secret(fresh_secret@, d),
                    ) == Some(msg@[d].node_secrets));
                }
            }
            assert(msg@ =~= mv);
        }
        let op = GroupOperation::Remove(
            GroupRemove { removed_roster_index: removed_index, path: msg },
        );
        let op_bytes = match encode_op(&op) {
            Ok(v) => v,
            Err(e) => {
                return Err(e);
            },
        };
        let mut data = bytes_clone(&self.transcript_hash);
        crate::codec::append_raw(&mut data, &op_bytes);
        let th2 = sha256(&data);
        proof {
            crate::tree::lemma_depth_nonneg(self.tree@.len() as int);
            crate::tree::lemma_path_span_props(
                0,
                self.tree@.len() as int,
                my_leaf as int,
                crate::tree::depth_of(self.tree@.len() as int),
            );
        }
        let update_secret = match tree2.root_secret() {
            Some(v) => bytes_clone(v),
            None => {
                return Err(Error::EncryptionError);
            },
        };
        let secrets = crate::schedule::derive(&update_secret, &self.init_secret);
        let conf_key = bytes_clone(&secrets.confirmation_key);
        let mut roster2 = roster_dup(&self.roster);
        roster2[removed] = None;
        proof {
            assert(roster_views(roster2@) =~= roster_views(self.roster@).update(
                removed as int,
                None,
            ));
        }
        let next = GroupState {
            cs: self.cs,
            roster: roster2,
            tree: tree2,
            epoch: self.epoch + 1,
            transcript_hash: th2,
            confirmation_key: secrets.confirmation_key,
            init_secret: secrets.init_secret,
            roster_index: self.roster_index,
            identity_key: bytes_clone(&self.identity_key),
        };
        Ok((op, next, conf_key))
    }

    /// Originates an add: validates the join bundle, applies the add to
    /// working copies, derives the next epoch's secrets from the all-zero
    /// update secret, and returns the operation, the committed next state,
    /// and the new confirmation key for `create_handshake`.
    pub fn create_add_op(
        &self,
        roster_index: u32,
        init_key: UserInitKey,
        welcome_info_hash: Vec<u8>,
    ) -> (r: Result<(GroupOperation, GroupState, Vec<u8>), Error>)
        requires
            self.wf(),
            self.epoch < 0xFFFF_FFFFu32,
        ensures
            r is Ok <==> Self::add_applies(
                *self,
                (GroupAdd { roster_index, init_key, welcome_info_hash }),
            ) && init_key_bounds_ok(init_key) && welcome_info_hash@.len() < 0x100,
            r matches Ok(t) ==> ({
                &&& t.0 matches GroupOperation::Add(a) && a.roster_index == roster_index
                    && a.init_key == init_key && a.welcome_info_hash@ == welcome_info_hash@
                    && Self::add_parts_post(*self, a, t.1.roster@, t.1.tree@)
                &&& t.1.wf()
                &&& t.1.cs == self.cs
                &&& t.1.epoch == self.epoch + 1
                &&& t.1.roster_index == self.roster_index
                &&& t.1.identity_key@ == self.identity_key@
                &&& t.1.transcript_hash@ == extended_transcript(self.transcript_hash@, t.0)
                &&& t.1.init_secret@ == crate::schedule::init_secret_of(
                    zero_secret(),
                    self.init_secret@,
                )
                &&& t.1.confirmation_key@ == crate::schedule::confirmation_key_of(
                    zero_secret(),
                    self.init_secret@,
                )
                &&& t.2@ == t.1.confirmation_key@
            }),
            r is Err ==> (r == Err::<(GroupOperation, GroupState, Vec<u8>), Error>(
                Error::ValidationError,
            ) || r == Err::<(GroupOperation, GroupState, Vec<u8>), Error>(Error::SignatureError)),
    {
        let a = GroupAdd { roster_index, init_key, welcome_info_hash };
        let parts = match self.apply_add_parts(&a) {
            Ok(p) => p,
            Err(e) => {
                return Err(e);
            },
        };
        let op = GroupOperation::Add(a);
        let op_bytes = match encode_op(&op) {
            Ok(v) => v,
            Err(e) => {
                return Err(e);
            },
        };
        let mut data = bytes_clone(&self.transcript_hash);
        crate::codec::append_raw(&mut data, &op_bytes);
        let th2 = sha256(&data);
        let zeros = zero_vec();
        let secrets = crate::schedule::derive(&zeros, &self.init_secret);
        let conf_key = bytes_clone(&secrets.confirmation_key);
        let next = GroupState {
            cs: self.cs,
            roster: parts.0,
            tree: parts.1,
            epoch: self.epoch + 1,
            transcript_hash: th2,
            confirmation_key: secrets.confirmation_key,
            init_secret: secrets.init_secret,
            roster_index: self.roster_index,
            identity_key: bytes_clone(&self.identity_key),
        };
        Ok((op, next, conf_key))
    }
}

/// The encoding of one roster entry: an occupancy tag, then the credential.
pub open spec fn enc_roster_entry(e: Option<(Seq<u8>, Seq<u8>)>) -> Seq<u8> {
    match e {
        None => seq![0u8],
        Some(c) => seq![1u8] + with_len_u16(c.0) + with_len_u16(c.1),
    }
}

/// The concatenated encodings of a roster.
pub open spec fn enc_roster_body(s: Seq<Option<(Seq<u8>, Seq<u8>)>>) -> Seq<u8>
    decreases s.len(),
{
    if s.len() == 0 {
        Seq::<u8>::empty()
    } else {
        enc_roster_body(s.drop_last()) + enc_roster_entry(s.last())
    }
}

/// The encoding of one tree node's public part: a blank tag, or the key.
pub open spec fn enc_tree_entry(p: Option<Seq<u8>>) -> Seq<u8> {
    match p {
        None => seq![0u8],
        Some(k) => seq![1u8] + with_len_u16(k),
    }
}

/// The concatenated encodings of a tree's public parts.
pub open spec fn enc_tree_body(s: Seq<Option<Seq<u8>>>) -> Seq<u8>
    decreases s.len(),
{
    if s.len() == 0 {
        Seq::<u8>::empty()
    } else {
        enc_tree_body(s.drop_last()) + enc_tree_entry(s.last())
    }
}

/// The canonical encoding of a group state's publicly observable part:
/// cipher suite, epoch, transcript hash, roster, and tree public keys. It
/// is a function of the public view alone, so members whose public views
/// agree serialize byte-identically.
pub open spec fn enc_group_pub(
    cs: CipherSuite,
    epoch: u32,
    th: Seq<u8>,
    rv: Seq<Option<(Seq<u8>, Seq<u8>)>>,
    tv: Seq<Option<Seq<u8>>>,
) -> Seq<u8> {
    be2(suite_wire_id_spec(cs) as int) + be4(epoch as int) + with_len_u8(th) + crate::codec::with_len_u32(
        enc_roster_body(rv),
    ) + crate::codec::with_len_u32(enc_tree_body(tv))
}

impl GroupState {
    /// Whether the encoded roster and tree fit their length prefixes.
    pub open spec fn serialize_bounds_ok(self) -> bool {
        &&& enc_roster_body(roster_views(self.roster@)).len() < 0x1_0000_0000
        &&& enc_tree_body(tree_pub_views(self.tree@)).len() < 0x1_0000_0000
    }

    /// Serializes the publicly observable state: cipher suite, epoch,
    /// transcript hash, roster, and tree public keys.
    pub fn serialize(&self) -> (r: Result<Vec<u8>, Error>)
        requires
            self.wf(),
        ensures
            r is Ok <==> self.serialize_bounds_ok(),
            r matches Ok(v) ==> v@ == enc_group_pub(
                self.cs,
                self.epoch,
                self.transcript_hash@,
                roster_views(self.roster@),
                tree_pub_views(self.tree@),
            ),
            r is Err ==> r == Err::<Vec<u8>, Error>(Error::ValidationError),
    {
        let mut out: Vec<u8> = Vec::new();
        crate::codec::append_be2(&mut out, crate::init_key::suite_wire_id(self.cs));
        append_be4(&mut out, self.epoch);
        if !append_with_len_u8(&mut out, &self.transcript_hash) {
            return Err(Error::ValidationError);
        }
        let mut roster_body: Vec<u8> = Vec::new();
        let n = self.roster.len();
        let mut i: usize = 0;
        while i < n
            invariant
                self.wf(),
                n == self.roster@.len(),
                i <= n,
                roster_body@ == enc_roster_body(roster_views(self.roster@).take(i as int)),
            decreases n - i,
        {
            proof {
                assert(roster_views(self.roster@)[i as int] == (match self.roster@[i as int] {
                    Some(c) => Some(cred_view(c)),
                    None => None,
                }));
            }
            match &self.roster[i] {
                None => {
                    append_u8(&mut roster_body, 0u8);
                },
                Some(c) => {
                    append_u8(&mut roster_body, 1u8);
                    if !append_with_len_u16(&mut roster_body, &c.identity) {
                        return Err(Error::ValidationError);
                    }
                    if !append_with_len_u16(&mut roster_body, &c.public_key) {
                        return Err(Error::ValidationError);
                    }
                },
            }
            i += 1;
            proof {
                assert(roster_views(self.roster@).take(i as int).drop_last() =~= roster_views(
                    self.roster@,
                ).take(i as int - 1));
                assert(roster_body@ =~= enc_roster_body(
                    roster_views(self.roster@).take(i as int),
                ));
            }
        }
        proof {
            assert(roster_views(self.roster@).take(n as int) =~= roster_views(self.roster@));
        }
        if !crate::codec::append_with_len_u32(&mut out, &roster_body) {
            return Err(Error::ValidationError);
        }
        let mut tree_body: Vec<u8> = Vec::new();
        let m = self.tree.nodes.len();
        let mut j: usize = 0;
        while j < m
            invariant
                self.wf(),
                m == self.tree@.len(),
                out@.len() >= 0,
                j <= m,
                tree_body@ == enc_tree_body(tree_pub_views(self.tree@).take(j as int)),
            decreases m - j,
        {
            proof {
                assert(self.tree@[j as int] == self.tree.nodes@[j as int]@);
                assert(tree_pub_views(self.tree@)[j as int] == self.tree@[j as int].public_key);
            }
            match &self.tree.nodes[j].public_key {
                None => {
                    append_u8(&mut tree_body, 0u8);
                },
                Some(k) => {
                    append_u8(&mut tree_body, 1u8);
                    if !append_with_len_u16(&mut tree_body, k) {
                        return Err(Error::ValidationError);
                    }
                },
            }
            j += 1;
            proof {
                assert(tree_pub_views(self.tree@).take(j as int).drop_last() =~= tree_pub_views(
                    self.tree@,
                ).take(j as int - 1));
                assert(tree_body@ =~= enc_tree_body(tree_pub_views(self.tree@).take(j as int)));
            }
        }
        proof {
            assert(tree_pub_views(self.tree@).take(m as int) =~= tree_pub_views(self.tree@));
        }
        if !crate::codec::append_with_len_u32(&mut out, &tree_body) {
            return Err(Error::ValidationError);
        }
        Ok(out)
    }
}

} // verus!
