//! The binary ratchet tree.
//!
//! A complete binary tree lives in a flat array. A subtree is a half-open
//! index span `[lo, hi)` of odd length; its root is the middle index, its
//! children are the left and right thirds, and leaves sit at even indices.
//! Leaf `i` of the tree is array index `2 * i`. Every node relation is
//! computed from index arithmetic; no links are stored.
//!
//! A node holds an optional DH key pair. The private key doubles as the
//! node's secret: each ancestor's secret derives one-way from its child's
//! secret, and the public key derives from the secret. A node with no key
//! material is blank.

use crate::bytes_clone;
use crate::codec::be4;
use crate::crypto::{aead_open_of, aead_seal, aead_seal_of, dh_agree, dh_pub_of, dh_public_key,
    dh_shared_of, hmac_sha256, hmac_sha256_of};
use crate::errors::Error;
use vstd::prelude::*;

verus! {

/// Domain-separation label: deriving an ancestor's secret from its child's.
pub const LABEL_PARENT: u8 = 1;

/// Domain-separation label: deriving a per-recipient ephemeral secret from
/// an update seed.
pub const LABEL_EPHEMERAL: u8 = 2;

/// Domain-separation label: deriving the AEAD key inside hybrid encryption.
pub const LABEL_ECIES_KEY: u8 = 3;

/// Domain-separation label: deriving the AEAD nonce inside hybrid
/// encryption.
pub const LABEL_ECIES_NONCE: u8 = 4;

/// A position in the tree: an optional DH key pair. The public part is
/// present once derived; the private part only for members whose leaf lies
/// in this node's subtree.
pub struct Node {
    /// The node's DH public key, or `None` for a blank node.
    pub public_key: Option<Vec<u8>>,
    /// The node's DH private key (equally: its secret), where known.
    pub private_key: Option<Vec<u8>>,
}

/// The mathematical value of a `Node`.
pub ghost struct NodeView {
    pub public_key: Option<Seq<u8>>,
    pub private_key: Option<Seq<u8>>,
}

impl View for Node {
    type V = NodeView;

    open spec fn view(&self) -> NodeView {
        NodeView {
            public_key: match self.public_key {
                Some(v) => Some(v@),
                None => None,
            },
            private_key: match self.private_key {
                Some(v) => Some(v@),
                None => None,
            },
        }
    }
}

impl NodeView {
    /// A blank node has no public key.
    pub open spec fn is_blank(self) -> bool {
        self.public_key is None
    }

    /// Key material, where present, has the DH scheme's length.
    pub open spec fn wf(self) -> bool {
        &&& (self.public_key matches Some(p) ==> p.len() == 32)
        &&& (self.private_key matches Some(s) ==> s.len() == 32)
    }
}

/// The blank node value.
pub open spec fn blank_node_view() -> NodeView {
    NodeView { public_key: None, private_key: None }
}

/// The node value derived from a 32-byte secret: the secret is the private
/// key and the public key derives from it.
pub open spec fn node_view_from_secret(s: Seq<u8>) -> NodeView {
    NodeView { public_key: Some(dh_pub_of(s)), private_key: Some(s) }
}

/// The view of a node array.
pub open spec fn tree_view(nodes: Seq<Node>) -> Seq<NodeView> {
    nodes.map_values(|n: Node| n@)
}

/// Returns a blank node.
pub fn blank_node() -> (r: Node)
    ensures
        r@ == blank_node_view(),
{
    Node { public_key: None, private_key: None }
}

/// Returns the node derived from a 32-byte secret.
pub fn node_from_secret(s: &Vec<u8>) -> (r: Node)
    requires
        s@.len() == 32,
    ensures
        r@ == node_view_from_secret(s@),
        r@.wf(),
{
    let public_key = dh_public_key(s);
    Node { public_key: Some(public_key), private_key: Some(bytes_clone(s)) }
}

/// Copies a node.
pub fn node_dup(n: &Node) -> (r: Node)
    ensures
        r@ == n@,
{
    let public_key = match &n.public_key {
        Some(v) => Some(bytes_clone(v)),
        None => None,
    };
    let private_key = match &n.private_key {
        Some(v) => Some(bytes_clone(v)),
        None => None,
    };
    Node { public_key, private_key }
}

/// Whether `n` is the node count of a complete binary tree.
pub open spec fn is_tree_size(n: int) -> bool
    decreases n,
{
    if n <= 0 {
        false
    } else if n == 1 {
        true
    } else {
        n % 2 == 1 && is_tree_size((n - 1) / 2)
    }
}

/// The root index of the span `[lo, hi)`.
pub open spec fn span_mid(lo: int, hi: int) -> int {
    (lo + hi) / 2
}

/// Whether `x` lies in the span `[lo, hi)`.
pub open spec fn in_span(lo: int, hi: int, x: int) -> bool {
    lo <= x < hi
}

/// The depth of a span of `size` nodes: the bottom-up level of its root.
pub open spec fn depth_of(size: int) -> int
    decreases size,
{
    if size <= 1 {
        0
    } else {
        1 + depth_of((size - 1) / 2)
    }
}

/// The depth of a span is nonnegative, and positive for a span of more
/// than one node.
pub proof fn lemma_depth_nonneg(s: int)
    ensures
        depth_of(s) >= 0,
        s > 1 ==> depth_of(s) >= 1,
    decreases s,
{
    if s > 1 {
        lemma_depth_nonneg((s - 1) / 2);
    }
}

/// Structure of a non-leaf span: its children are the outer thirds and its
/// root the exact middle.
pub proof fn lemma_span_structure(lo: int, hi: int)
    requires
        is_tree_size(hi - lo),
        hi - lo > 1,
        lo % 2 == 0,
    ensures
        span_mid(lo, hi) == lo + (hi - lo - 1) / 2,
        is_tree_size(span_mid(lo, hi) - lo),
        is_tree_size(hi - (span_mid(lo, hi) + 1)),
        span_mid(lo, hi) - lo == hi - lo - 1 - (span_mid(lo, hi) - lo),
        lo < span_mid(lo, hi) < hi,
        lo % 2 == 0 && (span_mid(lo, hi) + 1) % 2 == 0,
        span_mid(lo, hi) % 2 == 1,
        depth_of(hi - lo) == 1 + depth_of(span_mid(lo, hi) - lo),
        depth_of(span_mid(lo, hi) - lo) == depth_of(hi - (span_mid(lo, hi) + 1)),
{
    let s = hi - lo;
    let h = (s - 1) / 2;
    assert(s % 2 == 1);
    assert(s == 2 * h + 1);
    assert((lo + hi) / 2 == lo + h) by {
        assert(lo + hi == 2 * (lo + h) + 1);
    }
    assert(h % 2 == 1 || h == 1) by {
        if h > 1 {
            assert(is_tree_size(h));
        }
    }
    assert((lo + h) % 2 == 1) by {
        if h > 1 {
            assert(is_tree_size(h));
            assert(h % 2 == 1);
        }
    }
}

/// Computes the depth of a span of `size` nodes.
pub fn depth_of_size(size: usize) -> (r: usize)
    requires
        is_tree_size(size as int),
        size < 0x10000,
    ensures
        r == depth_of(size as int),
        r < size,
{
    let mut s = size;
    let mut d: usize = 0;
    while s > 1
        invariant
            is_tree_size(s as int),
            depth_of(size as int) == d + depth_of(s as int),
            s <= size < 0x10000,
            d + s <= size,
        decreases s,
    {
        s = (s - 1) / 2;
        d = d + 1;
    }
    d
}

/// The span of the ancestor of leaf `x` at bottom-up depth `d`, inside the
/// span `[lo, hi)`. Depth `depth_of(hi - lo)` is the span's root; depth 0 is
/// the leaf itself.
pub open spec fn path_span(lo: int, hi: int, x: int, d: int) -> (int, int)
    decreases hi - lo,
{
    if hi - lo <= 1 || d >= depth_of(hi - lo) {
        (lo, hi)
    } else {
        let mid = span_mid(lo, hi);
        if x < mid {
            path_span(lo, mid, x, d)
        } else {
            path_span(mid + 1, hi, x, d)
        }
    }
}

/// The index of the ancestor of leaf `x` at bottom-up depth `d`.
pub open spec fn path_node(lo: int, hi: int, x: int, d: int) -> int {
    span_mid(path_span(lo, hi, x, d).0, path_span(lo, hi, x, d).1)
}

/// The span of the co-path child at bottom-up depth `d`: the child of leaf
/// `x`'s ancestor at depth `d` whose subtree does not contain `x`. Defined
/// for `1 <= d <= depth_of(hi - lo)`.
pub open spec fn co_span(lo: int, hi: int, x: int, d: int) -> (int, int)
    decreases hi - lo,
{
    if hi - lo <= 1 {
        (lo, hi)
    } else {
        let mid = span_mid(lo, hi);
        if d >= depth_of(hi - lo) {
            if x < mid {
                (mid + 1, hi)
            } else {
                (lo, mid)
            }
        } else if x < mid {
            co_span(lo, mid, x, d)
        } else {
            co_span(mid + 1, hi, x, d)
        }
    }
}

/// Whether index `i` lies on the path from leaf `x` to the root of span
/// `[lo, hi)`, the leaf itself included.
pub open spec fn on_path(lo: int, hi: int, x: int, i: int) -> bool
    decreases hi - lo,
{
    if hi - lo <= 1 {
        i == x
    } else {
        let mid = span_mid(lo, hi);
        i == mid || (if x < mid {
            on_path(lo, mid, x, i)
        } else {
            on_path(mid + 1, hi, x, i)
        })
    }
}

/// A well-formed tree span: a complete subtree's index range, starting even.
pub open spec fn span_wf(lo: int, hi: int) -> bool {
    &&& is_tree_size(hi - lo)
    &&& lo % 2 == 0
    &&& 0 <= lo
    &&& hi <= 0x10000
}

/// The ancestor span at depth `d` is itself a well-formed span of depth `d`
/// containing `x`, and its root lies on `x`'s path.
pub proof fn lemma_path_span_props(lo: int, hi: int, x: int, d: int)
    requires
        span_wf(lo, hi),
        in_span(lo, hi, x),
        x % 2 == 0,
        0 <= d <= depth_of(hi - lo),
    ensures
        ({
            let (plo, phi) = path_span(lo, hi, x, d);
            &&& span_wf(plo, phi)
            &&& lo <= plo && phi <= hi
            &&& in_span(plo, phi, x)
            &&& depth_of(phi - plo) == d
            &&& in_span(lo, hi, path_node(lo, hi, x, d))
            &&& on_path(lo, hi, x, path_node(lo, hi, x, d))
            &&& (d == 0 ==> path_node(lo, hi, x, d) == x)
            &&& (d == depth_of(hi - lo) ==> path_span(lo, hi, x, d) == (lo, hi))
        }),
    decreases hi - lo,
{
    if hi - lo <= 1 {
        assert(span_mid(x, x + 1) == x);
    } else {
        lemma_span_structure(lo, hi);
        lemma_depth_nonneg(hi - lo);
        let mid = span_mid(lo, hi);
        if d < depth_of(hi - lo) {
            if x < mid {
                lemma_path_span_props(lo, mid, x, d);
                assert(path_span(lo, hi, x, d) == path_span(lo, mid, x, d));
                assert(path_node(lo, hi, x, d) == path_node(lo, mid, x, d));
                assert(on_path(lo, hi, x, path_node(lo, mid, x, d)));
            } else {
                lemma_path_span_props(mid + 1, hi, x, d);
                assert(path_span(lo, hi, x, d) == path_span(mid + 1, hi, x, d));
                assert(path_node(lo, hi, x, d) == path_node(mid + 1, hi, x, d));
                assert(on_path(lo, hi, x, path_node(mid + 1, hi, x, d)));
            }
        } else {
            assert(path_span(lo, hi, x, d) == (lo, hi));
            assert(path_node(lo, hi, x, d) == mid);
        }
    }
}

/// Everything on the path lies in the span.
pub proof fn lemma_on_path_in_span(lo: int, hi: int, x: int, i: int)
    requires
        span_wf(lo, hi),
        in_span(lo, hi, x),
        x % 2 == 0,
        on_path(lo, hi, x, i),
    ensures
        in_span(lo, hi, i),
    decreases hi - lo,
{
    if hi - lo > 1 {
        lemma_span_structure(lo, hi);
        let mid = span_mid(lo, hi);
        if i != mid {
            if x < mid {
                lemma_on_path_in_span(lo, mid, x, i);
            } else {
                lemma_on_path_in_span(mid + 1, hi, x, i);
            }
        }
    }
}

/// Distinct depths give distinct path nodes.
pub proof fn lemma_path_nodes_distinct(lo: int, hi: int, x: int, d1: int, d2: int)
    requires
        span_wf(lo, hi),
        in_span(lo, hi, x),
        x % 2 == 0,
        0 <= d1 < d2 <= depth_of(hi - lo),
    ensures
        path_node(lo, hi, x, d1) != path_node(lo, hi, x, d2),
    decreases hi - lo,
{
    lemma_path_span_props(lo, hi, x, d1);
    lemma_path_span_props(lo, hi, x, d2);
    if hi - lo > 1 {
        lemma_span_structure(lo, hi);
        let mid = span_mid(lo, hi);
        if d2 == depth_of(hi - lo) {
            // The deeper ancestor is this span's root; the shallower one
            // lies strictly inside a child span.
            lemma_path_span_in_child(lo, hi, x, d1);
        } else {
            if x < mid {
                lemma_path_nodes_distinct(lo, mid, x, d1, d2);
            } else {
                lemma_path_nodes_distinct(mid + 1, hi, x, d1, d2);
            }
        }
    }
}

/// For depths below the root, the ancestor span lies inside the child span
/// that contains `x`.
pub proof fn lemma_path_span_in_child(lo: int, hi: int, x: int, d: int)
    requires
        span_wf(lo, hi),
        in_span(lo, hi, x),
        x % 2 == 0,
        hi - lo > 1,
        0 <= d < depth_of(hi - lo),
    ensures
        ({
            let mid = span_mid(lo, hi);
            let (plo, phi) = path_span(lo, hi, x, d);
            &&& (x < mid ==> lo <= plo && phi <= mid)
            &&& (x >= mid ==> mid + 1 <= plo && phi <= hi)
            &&& path_span(lo, hi, x, d) == (if x < mid {
                path_span(lo, mid, x, d)
            } else {
                path_span(mid + 1, hi, x, d)
            })
        }),
{
    lemma_span_structure(lo, hi);
    let mid = span_mid(lo, hi);
    if x < mid {
        lemma_path_span_props(lo, mid, x, d);
    } else {
        lemma_path_span_props(mid + 1, hi, x, d);
    }
}

/// The one-way derivation of an ancestor's secret from its child's secret.
pub open spec fn parent_secret_of(s: Seq<u8>) -> Seq<u8> {
    hmac_sha256_of(s, seq![LABEL_PARENT])
}

/// The secret of the ancestor at bottom-up depth `d`, derived from a fresh
/// leaf secret by iterating the one-way parent derivation.
pub open spec fn chain_secret(fresh: Seq<u8>, d: int) -> Seq<u8>
    decreases d,
{
    if d <= 0 {
        fresh
    } else {
        parent_secret_of(chain_secret(fresh, d - 1))
    }
}

/// Derives an ancestor's secret from its child's secret.
pub fn derive_parent_secret(s: &Vec<u8>) -> (r: Vec<u8>)
    ensures
        r@ == parent_secret_of(s@),
        r@.len() == 32,
{
    let mut label: Vec<u8> = Vec::new();
    label.push(LABEL_PARENT);
    proof {
        assert(label@ =~= seq![LABEL_PARENT]);
    }
    hmac_sha256(s, &label)
}

/// The per-recipient ephemeral secret an update derives from its seed for
/// the resolution node at index `node`.
pub open spec fn eph_secret_of(seed: Seq<u8>, node: int) -> Seq<u8> {
    hmac_sha256_of(seed, seq![LABEL_EPHEMERAL] + be4(node))
}

/// Derives the ephemeral secret for encrypting to resolution node `node`.
pub fn derive_eph_secret(seed: &Vec<u8>, node: u32) -> (r: Vec<u8>)
    ensures
        r@ == eph_secret_of(seed@, node as int),
        r@.len() == 32,
{
    let mut data: Vec<u8> = Vec::new();
    data.push(LABEL_EPHEMERAL);
    crate::codec::append_be4(&mut data, node);
    proof {
        assert(data@ =~= seq![LABEL_EPHEMERAL] + be4(node as int));
    }
    hmac_sha256(seed, &data)
}

/// The AEAD key hybrid encryption derives from a DH shared secret.
pub open spec fn ecies_key_of(sh: Seq<u8>) -> Seq<u8> {
    hmac_sha256_of(sh, seq![LABEL_ECIES_KEY]).take(16)
}

/// The AEAD nonce hybrid encryption derives from a DH shared secret.
pub open spec fn ecies_nonce_of(sh: Seq<u8>) -> Seq<u8> {
    hmac_sha256_of(sh, seq![LABEL_ECIES_NONCE]).take(12)
}

/// A hybrid ciphertext: an ephemeral DH public key together with an AEAD
/// sealing of the payload under the derived shared secret.
pub struct EciesCiphertext {
    /// The sender's ephemeral DH public key.
    pub ephemeral_public_key: Vec<u8>,
    /// The AEAD-sealed payload.
    pub ciphertext: Vec<u8>,
}

impl View for EciesCiphertext {
    type V = (Seq<u8>, Seq<u8>);

    open spec fn view(&self) -> (Seq<u8>, Seq<u8>) {
        (self.ephemeral_public_key@, self.ciphertext@)
    }
}

/// The views of a list of hybrid ciphertexts.
pub open spec fn cts_views(s: Seq<EciesCiphertext>) -> Seq<(Seq<u8>, Seq<u8>)> {
    s.map_values(|c: EciesCiphertext| c@)
}

/// The hybrid encryption of `pt` to public key `pk` with ephemeral secret
/// `eph`, or `None` where the DH agreement rejects `pk`.
pub open spec fn ecies_seal_views(pk: Seq<u8>, eph: Seq<u8>, pt: Seq<u8>) -> Option<
    (Seq<u8>, Seq<u8>),
> {
    match dh_shared_of(eph, pk) {
        None => None,
        Some(sh) => Some(
            (dh_pub_of(eph), aead_seal_of(ecies_key_of(sh), ecies_nonce_of(sh), pt)),
        ),
    }
}

/// The hybrid decryption of `(epk, ct)` with private key `sk`, or `None`
/// where the agreement or the AEAD opening fails.
pub open spec fn ecies_open_views(sk: Seq<u8>, epk: Seq<u8>, ct: Seq<u8>) -> Option<Seq<u8>> {
    match dh_shared_of(sk, epk) {
        None => None,
        Some(sh) => aead_open_of(ecies_key_of(sh), ecies_nonce_of(sh), ct),
    }
}

/// Encrypts `pt` under a hybrid scheme to public key `pk`, with the
/// ephemeral key pair derived from `eph`. Fails, opaquely, exactly when the
/// DH agreement rejects `pk`.
pub fn ecies_seal(pk: &Vec<u8>, eph: &Vec<u8>, pt: &Vec<u8>) -> (r: Result<EciesCiphertext, Error>)
    requires
        eph@.len() == 32,
        pt@.len() < 0x1_0000_0000,
    ensures
        r is Ok <==> ecies_seal_views(pk@, eph@, pt@) is Some,
        r matches Ok(c) ==> ecies_seal_views(pk@, eph@, pt@) == Some(c@),
        r is Err ==> r == Err::<EciesCiphertext, Error>(Error::EncryptionError),
{
    let shared = match dh_agree(eph, pk) {
        Some(sh) => sh,
        None => {
            return Err(Error::EncryptionError);
        },
    };
    let mut key_label: Vec<u8> = Vec::new();
    key_label.push(LABEL_ECIES_KEY);
    let mut nonce_label: Vec<u8> = Vec::new();
    nonce_label.push(LABEL_ECIES_NONCE);
    proof {
        assert(key_label@ =~= seq![LABEL_ECIES_KEY]);
        assert(nonce_label@ =~= seq![LABEL_ECIES_NONCE]);
    }
    let mut key = hmac_sha256(&shared, &key_label);
    key.truncate(16);
    let mut nonce = hmac_sha256(&shared, &nonce_label);
    nonce.truncate(12);
    let ciphertext = aead_seal(&key, &nonce, pt);
    let ephemeral_public_key = dh_public_key(eph);
    Ok(EciesCiphertext { ephemeral_public_key, ciphertext })
}

/// Decrypts a hybrid ciphertext with private key `sk`. Fails, opaquely,
/// exactly when the agreement or the AEAD opening fails.
pub fn ecies_open(sk: &Vec<u8>, ct: &EciesCiphertext) -> (r: Result<Vec<u8>, Error>)
    requires
        sk@.len() == 32,
    ensures
        r is Ok <==> ecies_open_views(sk@, ct@.0, ct@.1) is Some,
        r matches Ok(p) ==> ecies_open_views(sk@, ct@.0, ct@.1) == Some(p@),
        r is Err ==> r == Err::<Vec<u8>, Error>(Error::EncryptionError),
{
    let shared = match dh_agree(sk, &ct.ephemeral_public_key) {
        Some(sh) => sh,
        None => {
            return Err(Error::EncryptionError);
        },
    };
    let mut key_label: Vec<u8> = Vec::new();
    key_label.push(LABEL_ECIES_KEY);
    let mut nonce_label: Vec<u8> = Vec::new();
    nonce_label.push(LABEL_ECIES_NONCE);
    proof {
        assert(key_label@ =~= seq![LABEL_ECIES_KEY]);
        assert(nonce_label@ =~= seq![LABEL_ECIES_NONCE]);
    }
    let mut key = hmac_sha256(&shared, &key_label);
    key.truncate(16);
    let mut nonce = hmac_sha256(&shared, &nonce_label);
    nonce.truncate(12);
    match crate::crypto::aead_open(&key, &nonce, &ct.ciphertext) {
        Some(p) => Ok(p),
        None => Err(Error::EncryptionError),
    }
}

/// The resolution of the span `[lo, hi)`: the ordered set of indices of the
/// highest non-blank nodes covering the span's non-blank leaves. It is the
/// encryption audience for a secret traveling to this subtree.
pub open spec fn res_nodes(t: Seq<NodeView>, lo: int, hi: int) -> Seq<int>
    decreases hi - lo,
{
    if !(0 <= lo < hi <= t.len()) {
        Seq::<int>::empty()
    } else if !t[span_mid(lo, hi)].is_blank() {
        seq![span_mid(lo, hi)]
    } else if hi - lo <= 1 {
        Seq::<int>::empty()
    } else {
        res_nodes(t, lo, span_mid(lo, hi)) + res_nodes(t, span_mid(lo, hi) + 1, hi)
    }
}

/// The position, within the resolution of `[lo, hi)`, of the resolution
/// node whose subtree contains leaf `x`, together with that node's index;
/// `None` where `x` is outside the span or covered by no resolution node.
pub open spec fn res_slot(t: Seq<NodeView>, lo: int, hi: int, x: int) -> Option<(int, int)>
    decreases hi - lo,
{
    if !(0 <= lo < hi <= t.len()) {
        None
    } else if !t[span_mid(lo, hi)].is_blank() {
        if in_span(lo, hi, x) {
            Some((0, span_mid(lo, hi)))
        } else {
            None
        }
    } else if hi - lo <= 1 {
        None
    } else if x < span_mid(lo, hi) {
        res_slot(t, lo, span_mid(lo, hi), x)
    } else {
        match res_slot(t, span_mid(lo, hi) + 1, hi, x) {
            Some((p, i)) => Some((p + res_nodes(t, lo, span_mid(lo, hi)).len(), i)),
            None => None,
        }
    }
}

/// What the slot lookup returns is a sound index into the resolution.
pub proof fn lemma_res_slot_props(t: Seq<NodeView>, lo: int, hi: int, x: int)
    requires
        res_slot(t, lo, hi, x) is Some,
    ensures
        ({
            let (p, i) = res_slot(t, lo, hi, x)->Some_0;
            &&& 0 <= p < res_nodes(t, lo, hi).len()
            &&& res_nodes(t, lo, hi)[p] == i
            &&& 0 <= lo <= i < hi <= t.len()
            &&& !t[i].is_blank()
        }),
    decreases hi - lo,
{
    let mid = span_mid(lo, hi);
    if !(0 <= lo < hi <= t.len()) {
    } else if !t[mid].is_blank() {
    } else if hi - lo <= 1 {
    } else if x < mid {
        lemma_res_slot_props(t, lo, mid, x);
    } else {
        lemma_res_slot_props(t, mid + 1, hi, x);
    }
}

/// Hybrid-encrypts `pt` to every node of the resolution of `[lo, hi)`, in
/// resolution order, with per-recipient ephemeral secrets derived from
/// `seed`. `None` where some recipient public key is rejected.
pub open spec fn res_seal_views(
    t: Seq<NodeView>,
    lo: int,
    hi: int,
    seed: Seq<u8>,
    pt: Seq<u8>,
) -> Option<Seq<(Seq<u8>, Seq<u8>)>>
    decreases hi - lo,
{
    if !(0 <= lo < hi <= t.len()) {
        Some(Seq::<(Seq<u8>, Seq<u8>)>::empty())
    } else if !t[span_mid(lo, hi)].is_blank() {
        let mid = span_mid(lo, hi);
        match ecies_seal_views(t[mid].public_key->Some_0, eph_secret_of(seed, mid), pt) {
            None => None,
            Some(c) => Some(seq![c]),
        }
    } else if hi - lo <= 1 {
        Some(Seq::<(Seq<u8>, Seq<u8>)>::empty())
    } else {
        let l = res_seal_views(t, lo, span_mid(lo, hi), seed, pt);
        let r = res_seal_views(t, span_mid(lo, hi) + 1, hi, seed, pt);
        if l is Some && r is Some {
            Some(l->Some_0 + r->Some_0)
        } else {
            None
        }
    }
}

/// Computes the resolution size of the span `[lo, hi)` and, where leaf `x`
/// is covered by a resolution node, that node's position and index.
pub fn find_resolution_slot(nodes: &Vec<Node>, lo: usize, hi: usize, x: usize) -> (r: (
    usize,
    Option<(usize, usize)>,
))
    requires
        lo < hi,
        hi <= nodes@.len(),
        nodes@.len() < 0x10000,
        is_tree_size(hi - lo as int),
        lo % 2 == 0,
    ensures
        r.0 == res_nodes(tree_view(nodes@), lo as int, hi as int).len(),
        r.0 <= hi - lo,
        match r.1 {
            Some(s) => res_slot(tree_view(nodes@), lo as int, hi as int, x as int) == Some(
                (s.0 as int, s.1 as int),
            ),
            None => res_slot(tree_view(nodes@), lo as int, hi as int, x as int) is None,
        },
    decreases hi - lo,
{
    let mid = (lo + hi) / 2;
    proof {
        assert(tree_view(nodes@)[mid as int] == nodes@[mid as int]@);
    }
    if nodes[mid].public_key.is_some() {
        if lo <= x && x < hi {
            (1, Some((0, mid)))
        } else {
            (1, None)
        }
    } else if hi - lo <= 1 {
        (0, None)
    } else {
        proof {
            lemma_span_structure(lo as int, hi as int);
        }
        let left = find_resolution_slot(nodes, lo, mid, x);
        let right = find_resolution_slot(nodes, mid + 1, hi, x);
        proof {
            if right.1 matches Some(s) {
                lemma_res_slot_props(tree_view(nodes@), mid as int + 1, hi as int, x as int);
            }
        }
        let count = left.0 + right.0;
        let slot: Option<(usize, usize)> = if x < mid {
            left.1
        } else {
            match right.1 {
                Some(s) => Some((s.0 + left.0, s.1)),
                None => None,
            }
        };
        (count, slot)
    }
}

/// Hybrid-encrypts `pt` to every node of the resolution of `[lo, hi)`, in
/// resolution order, appending the ciphertexts to `out`. The per-recipient
/// ephemeral secrets derive from `seed`. On failure `out` is unspecified;
/// callers discard it.
pub fn encrypt_to_resolution(
    nodes: &Vec<Node>,
    lo: usize,
    hi: usize,
    seed: &Vec<u8>,
    pt: &Vec<u8>,
    out: &mut Vec<EciesCiphertext>,
) -> (r: Result<(), Error>)
    requires
        lo < hi,
        hi <= nodes@.len(),
        nodes@.len() < 0x10000,
        is_tree_size(hi - lo as int),
        lo % 2 == 0,
        seed@.len() == 32,
        pt@.len() < 0x1_0000_0000,
    ensures
        r is Ok <==> res_seal_views(tree_view(nodes@), lo as int, hi as int, seed@, pt@) is Some,
        r is Ok ==> cts_views(final(out)@) == cts_views(old(out)@) + res_seal_views(
            tree_view(nodes@),
            lo as int,
            hi as int,
            seed@,
            pt@,
        )->Some_0,
        r is Err ==> r == Err::<(), Error>(Error::EncryptionError),
    decreases hi - lo,
{
    let mid = (lo + hi) / 2;
    proof {
        assert(tree_view(nodes@)[mid as int] == nodes@[mid as int]@);
    }
    match &nodes[mid].public_key {
        Some(pk) => {
            let eph = derive_eph_secret(seed, mid as u32);
            match ecies_seal(pk, &eph, pt) {
                Ok(c) => {
                    out.push(c);
                    proof {
                        assert(cts_views(out@) =~= cts_views(old(out)@) + res_seal_views(
                            tree_view(nodes@),
                            lo as int,
                            hi as int,
                            seed@,
                            pt@,
                        )->Some_0);
                    }
                    Ok(())
                },
                Err(e) => Err(e),
            }
        },
        None => {
            if hi - lo <= 1 {
                proof {
                    assert(cts_views(out@) =~= cts_views(out@) + Seq::<
                        (Seq<u8>, Seq<u8>),
                    >::empty());
                }
                Ok(())
            } else {
                proof {
                    lemma_span_structure(lo as int, hi as int);
                }
                match encrypt_to_resolution(nodes, lo, mid, seed, pt, out) {
                    Ok(_) => {},
                    Err(e) => {
                        return Err(e);
                    },
                }
                let r = encrypt_to_resolution(nodes, mid + 1, hi, seed, pt, out);
                proof {
                    if r is Ok {
                        assert(cts_views(out@) =~= cts_views(old(out)@) + res_seal_views(
                            tree_view(nodes@),
                            lo as int,
                            hi as int,
                            seed@,
                            pt@,
                        )->Some_0);
                    }
                }
                r
            }
        },
    }
}

/// The binary key tree: a flat array of nodes forming a complete binary
/// tree whose leaves correspond to roster slots.
pub struct RatchetTree {
    /// The nodes, leaves at even indices.
    pub nodes: Vec<Node>,
}

impl View for RatchetTree {
    type V = Seq<NodeView>;

    open spec fn view(&self) -> Seq<NodeView> {
        tree_view(self.nodes@)
    }
}

/// The smallest power of two no smaller than `l` and `m`.
pub open spec fn pow2_ceil_from(l: int, m: int) -> int
    decreases 2 * m - l,
{
    if l < 1 {
        1
    } else if l >= m {
        l
    } else {
        pow2_ceil_from(2 * l, m)
    }
}

/// The smallest power of two no smaller than `m`.
pub open spec fn pow2_ceil(m: int) -> int {
    pow2_ceil_from(1, m)
}

/// Bounds of the power-of-two rounding, and that the resulting tree node
/// count is a complete tree's.
pub proof fn lemma_pow2_ceil_from(l: int, m: int)
    requires
        1 <= l,
        is_tree_size(2 * l - 1),
    ensures
        pow2_ceil_from(l, m) >= m || l >= m,
        pow2_ceil_from(l, m) >= l,
        l < 2 * m ==> pow2_ceil_from(l, m) < 2 * m,
        l >= m ==> pow2_ceil_from(l, m) == l,
        is_tree_size(2 * pow2_ceil_from(l, m) - 1),
    decreases 2 * m - l,
{
    if l >= m {
    } else {
        assert(is_tree_size(2 * (2 * l) - 1)) by {
            assert((2 * (2 * l) - 1 - 1) / 2 == 2 * l - 1);
        }
        lemma_pow2_ceil_from(2 * l, m);
    }
}

impl RatchetTree {
    /// A well-formed tree: a complete tree's node count, and every node's
    /// key material of the right length. The 0x10000 node cap keeps every
    /// direct-path vector within the wire format's two-byte length
    /// prefixes and all span arithmetic free of overflow.
    pub open spec fn wf(self) -> bool {
        &&& is_tree_size(self@.len() as int)
        &&& self@.len() < 0x10000
        &&& forall|i: int| 0 <= i < self@.len() ==> (#[trigger] self@[i]).wf()
    }

    /// The number of leaf slots.
    pub open spec fn num_leaves(self) -> int {
        (self@.len() as int + 1) / 2
    }

    /// The root's index.
    pub open spec fn root_index(self) -> int {
        span_mid(0, self@.len() as int)
    }

    /// Returns the number of nodes.
    pub fn node_count(&self) -> (r: usize)
        ensures
            r == self@.len(),
    {
        self.nodes.len()
    }

    /// Builds a blank tree with the smallest power-of-two leaf count that
    /// accommodates `slots` roster entries.
    pub fn new_blank(slots: usize) -> (r: RatchetTree)
        requires
            1 <= slots <= 0x4000,
        ensures
            r.wf(),
            r.num_leaves() == pow2_ceil(slots as int),
            r.num_leaves() >= slots,
            r@.len() == 2 * pow2_ceil(slots as int) - 1,
            forall|i: int| 0 <= i < r@.len() ==> r@[i] == blank_node_view(),
    {
        proof {
            lemma_pow2_ceil_from(1, slots as int);
        }
        let mut l: usize = 1;
        while l < slots
            invariant
                1 <= l,
                slots <= 0x4000,
                l < 2 * slots,
                is_tree_size(2 * l as int - 1),
                pow2_ceil(slots as int) == pow2_ceil_from(l as int, slots as int),
            decreases 2 * slots - l,
        {
            proof {
                assert(is_tree_size(2 * (2 * l as int) - 1)) by {
                    assert((2 * (2 * l as int) - 1 - 1) / 2 == 2 * l as int - 1);
                }
                lemma_pow2_ceil_from(2 * l as int, slots as int);
            }
            l = l * 2;
        }
        let count = 2 * l - 1;
        let mut nodes: Vec<Node> = Vec::new();
        let mut i: usize = 0;
        while i < count
            invariant
                i <= count,
                nodes@.len() == i,
                forall|j: int| 0 <= j < i ==> (#[trigger] nodes@[j])@ == blank_node_view(),
            decreases count - i,
        {
            nodes.push(blank_node());
            i += 1;
        }
        let r = RatchetTree { nodes };
        proof {
            assert(forall|j: int| 0 <= j < r@.len() ==> r@[j] == r.nodes@[j]@);
            lemma_pow2_ceil_from(1, slots as int);
        }
        r
    }

    /// Copies the tree.
    pub fn dup(&self) -> (r: RatchetTree)
        ensures
            r@ == self@,
    {
        let mut nodes: Vec<Node> = Vec::new();
        let n = self.nodes.len();
        let mut i: usize = 0;
        while i < n
            invariant
                n == self.nodes@.len(),
                i <= n,
                nodes@.len() == i,
                forall|j: int| 0 <= j < i ==> (#[trigger] nodes@[j])@ == self.nodes@[j]@,
            decreases n - i,
        {
            nodes.push(node_dup(&self.nodes[i]));
            i += 1;
        }
        let r = RatchetTree { nodes };
        proof {
            assert(r@ =~= self@);
        }
        r
    }

    /// Replaces the node at `i`.
    pub fn set_node(&mut self, i: usize, n: Node)
        requires
            i < old(self)@.len(),
        ensures
            final(self)@ == old(self)@.update(i as int, n@),
    {
        self.nodes[i] = n;
        proof {
            assert(self@ =~= old(self)@.update(i as int, n@));
        }
    }

    /// Doubles the leaf count: the old tree becomes the left child of a new
    /// blank root, with a blank right subtree.
    pub fn grow(&mut self)
        requires
            old(self).wf(),
            old(self)@.len() < 0x8000,
        ensures
            final(self).wf(),
            final(self)@.len() == 2 * old(self)@.len() + 1,
            forall|j: int| 0 <= j < old(self)@.len() ==> final(self)@[j] == old(self)@[j],
            forall|j: int|
                old(self)@.len() <= j < final(self)@.len() ==> final(self)@[j]
                    == blank_node_view(),
    {
        let n = self.nodes.len();
        let target = 2 * n + 1;
        let mut i = n;
        while i < target
            invariant
                n <= i <= target,
                self.nodes@.len() == i,
                forall|j: int| 0 <= j < n ==> (#[trigger] self.nodes@[j])@ == old(self)@[j],
                forall|j: int| n <= j < i ==> (#[trigger] self.nodes@[j])@ == blank_node_view(),
            decreases target - i,
        {
            self.nodes.push(blank_node());
            i += 1;
        }
        proof {
            assert(is_tree_size(2 * n as int + 1)) by {
                assert((2 * n as int + 1 - 1) / 2 == n as int);
            }
            assert(forall|j: int| 0 <= j < self@.len() ==> self@[j] == self.nodes@[j]@);
        }
    }

    /// Returns the secret held at the root node, where known.
    pub fn root_secret(&self) -> (r: Option<&Vec<u8>>)
        requires
            self@.len() > 0,
        ensures
            match self@[self.root_index()].private_key {
                Some(sk) => r matches Some(v) && v@ == sk,
                None => r is None,
            },
    {
        let root = self.nodes.len() / 2;
        proof {
            assert(self@[root as int] == self.nodes@[root as int]@);
        }
        self.nodes[root].private_key.as_ref()
    }
}

/// Contains a node's new public key and the node's secret, encrypted for
/// everyone in the resolution of that node's co-path child.
pub struct DirectPathNodeMessage {
    /// The node's new DH public key.
    pub public_key: Vec<u8>,
    /// The node's secret, hybrid-encrypted once per resolution member.
    pub node_secrets: Vec<EciesCiphertext>,
}

/// The mathematical value of a `DirectPathNodeMessage`.
pub ghost struct DirectPathNodeMessageView {
    pub public_key: Seq<u8>,
    pub node_secrets: Seq<(Seq<u8>, Seq<u8>)>,
}

impl View for DirectPathNodeMessage {
    type V = DirectPathNodeMessageView;

    open spec fn view(&self) -> DirectPathNodeMessageView {
        DirectPathNodeMessageView {
            public_key: self.public_key@,
            node_secrets: cts_views(self.node_secrets@),
        }
    }
}

/// A direct path of node messages, ordered bottom-up: the acting member's
/// leaf first (with no secrets), then each ancestor up to the root.
pub struct DirectPathMessage {
    /// One message per node on the extended direct path.
    pub node_messages: Vec<DirectPathNodeMessage>,
}

impl View for DirectPathMessage {
    type V = Seq<DirectPathNodeMessageView>;

    open spec fn view(&self) -> Seq<DirectPathNodeMessageView> {
        self.node_messages@.map_values(|m: DirectPathNodeMessage| m@)
    }
}

/// The co-path child span at depth `d` is a well-formed span of depth
/// `d - 1` that does not contain the leaf.
pub proof fn lemma_co_span_props(lo: int, hi: int, x: int, d: int)
    requires
        span_wf(lo, hi),
        in_span(lo, hi, x),
        x % 2 == 0,
        1 <= d <= depth_of(hi - lo),
    ensures
        ({
            let (clo, chi) = co_span(lo, hi, x, d);
            &&& span_wf(clo, chi)
            &&& lo <= clo && chi <= hi
            &&& !in_span(clo, chi, x)
            &&& depth_of(chi - clo) == d - 1
            &&& clo < chi
        }),
    decreases hi - lo,
{
    lemma_depth_nonneg(hi - lo);
    if hi - lo > 1 {
        lemma_span_structure(lo, hi);
        let mid = span_mid(lo, hi);
        if d < depth_of(hi - lo) {
            if x < mid {
                lemma_co_span_props(lo, mid, x, d);
            } else {
                lemma_co_span_props(mid + 1, hi, x, d);
            }
        }
    }
}

/// Computes, for leaf `x` in the span `[lo, hi)`, the index of each path
/// node and the co-path child span at each depth, both indexed by bottom-up
/// depth (the depth-0 co-span entry is a placeholder).
pub fn path_info_rec(
    nodes_len: usize,
    lo: usize,
    hi: usize,
    x: usize,
    path_out: &mut Vec<usize>,
    cos_out: &mut Vec<(usize, usize)>,
)
    requires
        span_wf(lo as int, hi as int),
        in_span(lo as int, hi as int, x as int),
        x % 2 == 0,
    ensures
        final(path_out)@.len() == old(path_out)@.len() + depth_of(hi - lo as int) + 1,
        final(cos_out)@.len() == old(cos_out)@.len() + depth_of(hi - lo as int) + 1,
        forall|j: int| 0 <= j < old(path_out)@.len() ==> final(path_out)@[j] == old(path_out)@[j],
        forall|j: int| 0 <= j < old(cos_out)@.len() ==> final(cos_out)@[j] == old(cos_out)@[j],
        forall|d: int|
            0 <= d <= depth_of(hi - lo as int) ==> (#[trigger] final(path_out)@[old(
                path_out,
            )@.len() + d]) as int == path_node(lo as int, hi as int, x as int, d),
        forall|d: int|
            1 <= d <= depth_of(hi - lo as int) ==> ((#[trigger] final(cos_out)@[old(
                cos_out,
            )@.len() + d]).0 as int, final(cos_out)@[old(cos_out)@.len() + d].1 as int) == co_span(
                lo as int,
                hi as int,
                x as int,
                d,
            ),
    decreases hi - lo,
{
    proof {
        lemma_depth_nonneg(hi - lo as int);
    }
    if hi - lo <= 1 {
        path_out.push(x);
        cos_out.push((x, x + 1));
        proof {
            assert(span_mid(x as int, x as int + 1) == x as int);
        }
    } else {
        proof {
            lemma_span_structure(lo as int, hi as int);
        }
        let mid = (lo + hi) / 2;
        if x < mid {
            path_info_rec(nodes_len, lo, mid, x, path_out, cos_out);
            path_out.push(mid);
            cos_out.push((mid + 1, hi));
        } else {
            path_info_rec(nodes_len, mid + 1, hi, x, path_out, cos_out);
            path_out.push(mid);
            cos_out.push((lo, mid));
        }
        proof {
            let loi = lo as int;
            let hii = hi as int;
            let xi = x as int;
            let depth = depth_of(hii - loi);
            assert forall|d: int| 0 <= d < depth implies path_node(loi, hii, xi, d) == (if xi
                < span_mid(loi, hii) {
                path_node(loi, span_mid(loi, hii), xi, d)
            } else {
                path_node(span_mid(loi, hii) + 1, hii, xi, d)
            }) by {
                assert(path_span(loi, hii, xi, d) == (if xi < span_mid(loi, hii) {
                    path_span(loi, span_mid(loi, hii), xi, d)
                } else {
                    path_span(span_mid(loi, hii) + 1, hii, xi, d)
                }));
            }
            assert forall|d: int| 1 <= d < depth implies co_span(loi, hii, xi, d) == (if xi
                < span_mid(loi, hii) {
                co_span(loi, span_mid(loi, hii), xi, d)
            } else {
                co_span(span_mid(loi, hii) + 1, hii, xi, d)
            }) by {}
            assert(path_node(loi, hii, xi, depth) == span_mid(loi, hii));
        }
    }
}

impl RatchetTree {
    /// Computes the path-node indices and co-path child spans for a leaf,
    /// indexed by bottom-up depth.
    pub fn path_info(&self, leaf: usize) -> (r: (Vec<usize>, Vec<(usize, usize)>))
        requires
            self.wf(),
            leaf < self@.len(),
            leaf % 2 == 0,
        ensures
            r.0@.len() == depth_of(self@.len() as int) + 1,
            r.1@.len() == depth_of(self@.len() as int) + 1,
            forall|d: int|
                0 <= d <= depth_of(self@.len() as int) ==> (#[trigger] r.0@[d]) as int
                    == path_node(0, self@.len() as int, leaf as int, d),
            forall|d: int|
                1 <= d <= depth_of(self@.len() as int) ==> ((#[trigger] r.1@[d]).0 as int,
                r.1@[d].1 as int) == co_span(0, self@.len() as int, leaf as int, d),
    {
        let mut path_out: Vec<usize> = Vec::new();
        let mut cos_out: Vec<(usize, usize)> = Vec::new();
        let n = self.nodes.len();
        path_info_rec(n, 0, n, leaf, &mut path_out, &mut cos_out);
        proof {
            let ni = self@.len() as int;
            let xi = leaf as int;
            assert forall|d: int| 0 <= d <= depth_of(ni) implies (#[trigger] path_out@[d]) as int
                == path_node(0, ni, xi, d) by {
                assert(path_out@[0 + d] as int == path_node(0, ni, xi, d));
            }
            assert forall|d: int| 1 <= d <= depth_of(ni) implies ((#[trigger] cos_out@[d]).0 as int,
            cos_out@[d].1 as int) == co_span(0, ni, xi, d) by {
                assert((cos_out@[0 + d].0 as int, cos_out@[0 + d].1 as int) == co_span(
                    0,
                    ni,
                    xi,
                    d,
                ));
            }
        }
        (path_out, cos_out)
    }

    /// Originates a refresh of the direct path of `my_leaf`: derives, for
    /// the leaf and every ancestor bottom-up, a node secret by one-way
    /// derivation from `fresh`, recomputes each node's key pair, and
    /// hybrid-encrypts each ancestor's secret to the resolution of that
    /// ancestor's co-path child, with ephemeral secrets derived from `seed`.
    ///
    /// Returns the message carrying, bottom-up, each new public key and the
    /// encrypted secrets. Fails, opaquely, exactly when some recipient
    /// public key is rejected (`update_seals_ok`); the tree is then in an
    /// unspecified state and must be discarded (callers work on a copy).
    pub fn update_direct_path(&mut self, my_leaf: usize, fresh: &Vec<u8>, seed: &Vec<u8>) -> (r:
        Result<DirectPathMessage, Error>)
        requires
            old(self).wf(),
            my_leaf < old(self)@.len(),
            my_leaf % 2 == 0,
            fresh@.len() == 32,
            seed@.len() == 32,
        ensures
            r is Ok <==> update_seals_ok(old(self)@, my_leaf as int, fresh@, seed@),
            r matches Ok(m) ==> ({
                let n = old(self)@.len() as int;
                let depth = depth_of(n);
                let leaf = my_leaf as int;
                &&& final(self)@.len() == n
                &&& final(self).wf()
                &&& forall|j: int|
                    0 <= j < n && !on_path(0, n, leaf, j) ==> final(self)@[j] == old(self)@[j]
                &&& forall|d: int|
                    0 <= d <= depth ==> final(self)@[path_node(0, n, leaf, d)]
                        == node_view_from_secret(chain_secret(fresh@, d))
                &&& m@.len() == depth + 1
                &&& forall|d: int|
                    0 <= d <= depth ==> (#[trigger] m@[d]).public_key == dh_pub_of(
                        chain_secret(fresh@, d),
                    )
                &&& m@[0].node_secrets.len() == 0
                &&& forall|d: int|
                    1 <= d <= depth ==> res_seal_views(
                        old(self)@,
                        co_span(0, n, leaf, d).0,
                        co_span(0, n, leaf, d).1,
                        seed@,
                        chain_secret(fresh@, d),
                    ) == Some((#[trigger] m@[d]).node_secrets)
            }),
            r is Err ==> r == Err::<DirectPathMessage, Error>(Error::EncryptionError),
    {
        let n = self.nodes.len();
        let ghost ni = n as int;
        let ghost leaf = my_leaf as int;
        let depth = depth_of_size(n);
        let (path_nodes, cos) = self.path_info(my_leaf);
        // First pass: derive the secret chain and build the message against
        // the unchanged tree.
        let mut node_messages: Vec<DirectPathNodeMessage> = Vec::new();
        let mut cur = bytes_clone(fresh);
        let mut d: usize = 0;
        while d <= depth
            invariant
                self.wf(),
                self@ == old(self)@,
                n == self@.len(),
                ni == n as int,
                leaf == my_leaf as int,
                my_leaf < n,
                my_leaf % 2 == 0,
                fresh@.len() == 32,
                seed@.len() == 32,
                depth == depth_of(ni),
                depth < n,
                cos@.len() == depth + 1,
                forall|dd: int|
                    1 <= dd <= depth ==> ((#[trigger] cos@[dd]).0 as int, cos@[dd].1 as int)
                        == co_span(0, ni, leaf, dd),
                d <= depth + 1,
                cur@ == chain_secret(fresh@, d as int),
                cur@.len() == 32,
                node_messages@.len() == d,
                forall|dd: int|
                    0 <= dd < d ==> (#[trigger] node_messages@[dd]@).public_key == dh_pub_of(
                        chain_secret(fresh@, dd),
                    ),
                d > 0 ==> node_messages@[0]@.node_secrets.len() == 0,
                forall|dd: int|
                    1 <= dd < d ==> res_seal_views(
                        self@,
                        co_span(0, ni, leaf, dd).0,
                        co_span(0, ni, leaf, dd).1,
                        seed@,
                        chain_secret(fresh@, dd),
                    ) == Some((#[trigger] node_messages@[dd]@).node_secrets),
            decreases depth + 1 - d,
        {
            let public_key = dh_public_key(&cur);
            let mut node_secrets: Vec<EciesCiphertext> = Vec::new();
            if d >= 1 {
                let (clo, chi) = (cos[d].0, cos[d].1);
                proof {
                    lemma_co_span_props(0, ni, leaf, d as int);
                }
                match encrypt_to_resolution(&self.nodes, clo, chi, seed, &cur, &mut node_secrets) {
                    Ok(_) => {},
                    Err(_) => {
                        proof {
                            assert(res_seal_views(
                                old(self)@,
                                co_span(0, ni, leaf, d as int).0,
                                co_span(0, ni, leaf, d as int).1,
                                seed@,
                                chain_secret(fresh@, d as int),
                            ) is None);
                        }
                        return Err(Error::EncryptionError);
                    },
                }
            }
            proof {
                assert(cts_views(Seq::<EciesCiphertext>::empty()) =~= Seq::<
                    (Seq<u8>, Seq<u8>),
                >::empty());
            }
            node_messages.push(DirectPathNodeMessage { public_key, node_secrets });
            cur = derive_parent_secret(&cur);
            d += 1;
        }
        proof {
            assert forall|dd: int| 1 <= dd <= depth implies res_seal_views(
                old(self)@,
                co_span(0, ni, leaf, dd).0,
                co_span(0, ni, leaf, dd).1,
                seed@,
                chain_secret(fresh@, dd),
            ) is Some by {
                assert(res_seal_views(
                    self@,
                    co_span(0, ni, leaf, dd).0,
                    co_span(0, ni, leaf, dd).1,
                    seed@,
                    chain_secret(fresh@, dd),
                ) == Some(node_messages@[dd]@.node_secrets));
            }
            assert(update_seals_ok(old(self)@, leaf, fresh@, seed@));
        }
        // Second pass: write the derived nodes along the path.
        let mut cur2 = bytes_clone(fresh);
        let mut d2: usize = 0;
        while d2 <= depth
            invariant
                n == self@.len(),
                ni == n as int,
                leaf == my_leaf as int,
                my_leaf < n,
                my_leaf % 2 == 0,
                fresh@.len() == 32,
                depth == depth_of(ni),
                depth < n,
                path_nodes@.len() == depth + 1,
                forall|dd: int|
                    0 <= dd <= depth ==> (#[trigger] path_nodes@[dd]) as int == path_node(
                        0,
                        ni,
                        leaf,
                        dd,
                    ),
                d2 <= depth + 1,
                update_seals_ok(old(self)@, leaf, fresh@, seed@),
                cur2@ == chain_secret(fresh@, d2 as int),
                cur2@.len() == 32,
                forall|j: int|
                    0 <= j < ni && !on_path(0, ni, leaf, j) ==> self@[j] == old(self)@[j],
                forall|dd: int|
                    0 <= dd < d2 ==> self@[path_node(0, ni, leaf, dd)] == node_view_from_secret(
                        chain_secret(fresh@, dd),
                    ),
                forall|dd: int|
                    d2 <= dd <= depth ==> self@[path_node(0, ni, leaf, dd)] == old(self)@[path_node(
                        0,
                        ni,
                        leaf,
                        dd,
                    )],
                self.wf(),
            decreases depth + 1 - d2,
        {
            proof {
                lemma_path_span_props(0, ni, leaf, d2 as int);
                lemma_on_path_in_span(0, ni, leaf, path_node(0, ni, leaf, d2 as int));
                assert forall|dd: int| d2 < dd <= depth implies path_node(0, ni, leaf, dd)
                    != path_node(0, ni, leaf, d2 as int) by {
                    lemma_path_nodes_distinct(0, ni, leaf, d2 as int, dd);
                }
                assert forall|dd: int| 0 <= dd < d2 implies path_node(0, ni, leaf, dd)
                    != path_node(0, ni, leaf, d2 as int) by {
                    lemma_path_nodes_distinct(0, ni, leaf, dd, d2 as int);
                }
            }
            let node = node_from_secret(&cur2);
            self.set_node(path_nodes[d2], node);
            proof {
                let di = d2 as int;
                assert(path_nodes@[di] as int == path_node(0, ni, leaf, di));
                assert(0 <= path_node(0, ni, leaf, di) < ni);
                assert(self@[path_node(0, ni, leaf, di)] == node_view_from_secret(
                    chain_secret(fresh@, di),
                ));
                assert forall|dd: int| 0 <= dd < di implies self@[path_node(0, ni, leaf, dd)]
                    == node_view_from_secret(chain_secret(fresh@, dd)) by {
                    lemma_path_nodes_distinct(0, ni, leaf, dd, di);
                    lemma_path_span_props(0, ni, leaf, dd);
                }
                assert forall|dd: int| di + 1 <= dd <= depth implies self@[path_node(
                    0,
                    ni,
                    leaf,
                    dd,
                )] == old(self)@[path_node(0, ni, leaf, dd)] by {
                    lemma_path_nodes_distinct(0, ni, leaf, di, dd);
                    lemma_path_span_props(0, ni, leaf, dd);
                }
            }
            cur2 = derive_parent_secret(&cur2);
            d2 += 1;
        }
        Ok(DirectPathMessage { node_messages })
    }
}

/// A path node above the leaf sits at an odd index.
pub proof fn lemma_path_node_odd(lo: int, hi: int, x: int, d: int)
    requires
        span_wf(lo, hi),
        in_span(lo, hi, x),
        x % 2 == 0,
        1 <= d <= depth_of(hi - lo),
    ensures
        path_node(lo, hi, x, d) % 2 == 1,
{
    lemma_path_span_props(lo, hi, x, d);
    let (plo, phi) = path_span(lo, hi, x, d);
    if phi - plo <= 1 {
        assert(depth_of(phi - plo) == 0);
    }
    lemma_span_structure(plo, phi);
}

/// The only even-indexed node on a leaf's path is the leaf itself.
pub proof fn lemma_on_path_even_is_leaf(lo: int, hi: int, x: int, i: int)
    requires
        span_wf(lo, hi),
        in_span(lo, hi, x),
        x % 2 == 0,
        on_path(lo, hi, x, i),
        i % 2 == 0,
    ensures
        i == x,
    decreases hi - lo,
{
    if hi - lo > 1 {
        lemma_span_structure(lo, hi);
        let mid = span_mid(lo, hi);
        if x < mid {
            lemma_on_path_even_is_leaf(lo, mid, x, i);
        } else {
            lemma_on_path_even_is_leaf(mid + 1, hi, x, i);
        }
    }
}

/// Every node on a leaf's path is that leaf's ancestor at some depth.
pub proof fn lemma_on_path_is_path_node(lo: int, hi: int, x: int, i: int)
    requires
        span_wf(lo, hi),
        in_span(lo, hi, x),
        x % 2 == 0,
        on_path(lo, hi, x, i),
    ensures
        exists|d: int|
            0 <= d <= depth_of(hi - lo) && i == #[trigger] path_node(lo, hi, x, d),
    decreases hi - lo,
{
    lemma_depth_nonneg(hi - lo);
    if hi - lo <= 1 {
        lemma_path_span_props(lo, hi, x, 0);
        assert(i == path_node(lo, hi, x, 0));
    } else {
        lemma_span_structure(lo, hi);
        let mid = span_mid(lo, hi);
        let depth = depth_of(hi - lo);
        if i == mid {
            lemma_path_span_props(lo, hi, x, depth);
            assert(i == path_node(lo, hi, x, depth));
        } else {
            if x < mid {
                lemma_on_path_is_path_node(lo, mid, x, i);
                let d = choose|d: int|
                    0 <= d <= depth_of(mid - lo) && i == #[trigger] path_node(lo, mid, x, d);
                assert(path_span(lo, hi, x, d) == path_span(lo, mid, x, d));
                assert(i == path_node(lo, hi, x, d));
            } else {
                lemma_on_path_is_path_node(mid + 1, hi, x, i);
                let d = choose|d: int|
                    0 <= d <= depth_of(hi - (mid + 1)) && i == #[trigger] path_node(mid + 1, hi, x, d);
                assert(path_span(lo, hi, x, d) == path_span(mid + 1, hi, x, d));
                assert(i == path_node(lo, hi, x, d));
            }
        }
    }
}

/// The bottom-up depth of the lowest common ancestor of leaves `a` and `b`
/// in the span `[lo, hi)`: the depth at which their paths diverge.
pub open spec fn meet_depth(lo: int, hi: int, a: int, b: int) -> int
    decreases hi - lo,
{
    if hi - lo <= 1 {
        0
    } else {
        let mid = span_mid(lo, hi);
        if a < mid && b < mid {
            meet_depth(lo, mid, a, b)
        } else if a >= mid && b >= mid {
            meet_depth(mid + 1, hi, a, b)
        } else {
            depth_of(hi - lo)
        }
    }
}

/// Computes the depth at which the paths of distinct leaves `a` and `b`
/// diverge.
pub fn meet_depth_exec(lo: usize, hi: usize, a: usize, b: usize) -> (r: usize)
    requires
        span_wf(lo as int, hi as int),
        in_span(lo as int, hi as int, a as int),
        in_span(lo as int, hi as int, b as int),
        a % 2 == 0,
        b % 2 == 0,
        a != b,
    ensures
        r == meet_depth(lo as int, hi as int, a as int, b as int),
        1 <= r <= depth_of(hi - lo as int),
    decreases hi - lo,
{
    proof {
        lemma_depth_nonneg(hi - lo as int);
    }
    if hi - lo <= 1 {
        // Two distinct leaves cannot share a single-node span.
        proof {
            assert(false);
        }
        0
    } else {
        proof {
            lemma_span_structure(lo as int, hi as int);
        }
        let mid = (lo + hi) / 2;
        if a < mid && b < mid {
            meet_depth_exec(lo, mid, a, b)
        } else if a > mid && b > mid {
            meet_depth_exec(mid + 1, hi, a, b)
        } else {
            depth_of_size(hi - lo)
        }
    }
}

/// Whether the span `[lo, hi)` holds any non-blank leaf.
pub open spec fn span_has_nonblank_leaf(t: Seq<NodeView>, lo: int, hi: int) -> bool {
    exists|j: int| lo <= j < hi && j % 2 == 0 && !(#[trigger] t[j]).is_blank()
}

/// The secret a member at leaf `me` decrypts from a direct-path message
/// sent from `sender`: the ciphertext, for the divergence-depth ancestor,
/// addressed to the resolution node covering `me`, opened with that node's
/// private key. `None` where any of that is missing or fails.
pub open spec fn apply_path_dec(
    t: Seq<NodeView>,
    msg: Seq<DirectPathNodeMessageView>,
    sender: int,
    me: int,
) -> Option<Seq<u8>> {
    let n = t.len() as int;
    let td = meet_depth(0, n, sender, me);
    let cs = co_span(0, n, sender, td);
    match res_slot(t, cs.0, cs.1, me) {
        None => None,
        Some(slot) => {
            let p = slot.0;
            let i = slot.1;
            if 0 <= td < msg.len() && 0 <= p < msg[td].node_secrets.len() && t[i].private_key
                is Some {
                ecies_open_views(
                    t[i].private_key->Some_0,
                    msg[td].node_secrets[p].0,
                    msg[td].node_secrets[p].1,
                )
            } else {
                None
            }
        },
    }
}

/// Exactly when originating a direct-path refresh from `leaf` succeeds:
/// every hybrid encryption to the resolutions of the leaf's co-path
/// children goes through. Each encryption's outcome is a function of its
/// arguments alone, so this is decided by the tree, the leaf, and the two
/// supplied secrets.
pub open spec fn update_seals_ok(t: Seq<NodeView>, leaf: int, fresh: Seq<u8>, seed: Seq<u8>) -> bool {
    forall|d: int|
        1 <= d <= depth_of(t.len() as int) ==> res_seal_views(
            t,
            co_span(0, t.len() as int, leaf, d).0,
            co_span(0, t.len() as int, leaf, d).1,
            seed,
            chain_secret(fresh, d),
        ) is Some
}

/// Exactly when replaying a direct-path message from `sender` at `me`
/// succeeds: the message length matches the direct path, every carried
/// public key has the scheme's length, the member can decrypt a 32-byte
/// secret for the lowest common ancestor, and every re-derived public key
/// from there upward matches the message.
pub open spec fn apply_ok(
    t: Seq<NodeView>,
    msg: Seq<DirectPathNodeMessageView>,
    sender: int,
    me: int,
) -> bool {
    let n = t.len() as int;
    let depth = depth_of(n);
    let td = meet_depth(0, n, sender, me);
    let dec = apply_path_dec(t, msg, sender, me);
    &&& msg.len() == depth + 1
    &&& (forall|j: int| 0 <= j < msg.len() ==> (#[trigger] msg[j]).public_key.len() == 32)
    &&& dec is Some
    &&& dec->Some_0.len() == 32
    &&& (forall|d: int|
        td <= d <= depth ==> dh_pub_of(chain_secret(dec->Some_0, d - td)) == (
        #[trigger] msg[d]).public_key)
}

impl RatchetTree {
    /// Scans whether the span holds any non-blank leaf.
    pub fn has_nonblank_leaf(&self, lo: usize, hi: usize) -> (r: bool)
        requires
            lo < hi,
            hi <= self@.len(),
            hi <= 0x10000,
            lo % 2 == 0,
        ensures
            r == span_has_nonblank_leaf(self@, lo as int, hi as int),
    {
        let mut j = lo;
        while j < hi
            invariant
                lo <= j,
                hi <= self@.len(),
                hi <= 0x10000,
                j <= hi + 1,
                j % 2 == 0,
                forall|k: int|
                    lo <= k < j && k % 2 == 0 ==> (#[trigger] self@[k]).is_blank(),
            decreases hi + 2 - j,
        {
            proof {
                assert(self@[j as int] == self.nodes@[j as int]@);
            }
            if self.nodes[j].public_key.is_some() {
                return true;
            }
            j += 2;
        }
        false
    }
}

/// Computes the path-node spans for leaf `x`, indexed by bottom-up depth.
pub fn path_spans_rec(lo: usize, hi: usize, x: usize, spans_out: &mut Vec<(usize, usize)>)
    requires
        span_wf(lo as int, hi as int),
        in_span(lo as int, hi as int, x as int),
        x % 2 == 0,
    ensures
        final(spans_out)@.len() == old(spans_out)@.len() + depth_of(hi - lo as int) + 1,
        forall|j: int| 0 <= j < old(spans_out)@.len() ==> final(spans_out)@[j] == old(spans_out)@[j],
        forall|d: int|
            0 <= d <= depth_of(hi - lo as int) ==> ((#[trigger] final(spans_out)@[old(
                spans_out,
            )@.len() + d]).0 as int, final(spans_out)@[old(spans_out)@.len() + d].1 as int)
                == path_span(lo as int, hi as int, x as int, d),
    decreases hi - lo,
{
    proof {
        lemma_depth_nonneg(hi - lo as int);
    }
    if hi - lo <= 1 {
        spans_out.push((lo, hi));
    } else {
        proof {
            lemma_span_structure(lo as int, hi as int);
        }
        let mid = (lo + hi) / 2;
        if x < mid {
            path_spans_rec(lo, mid, x, spans_out);
        } else {
            path_spans_rec(mid + 1, hi, x, spans_out);
        }
        spans_out.push((lo, hi));
        proof {
            let loi = lo as int;
            let hii = hi as int;
            let xi = x as int;
            let depth = depth_of(hii - loi);
            assert forall|d: int| 0 <= d < depth implies path_span(loi, hii, xi, d) == (if xi
                < span_mid(loi, hii) {
                path_span(loi, span_mid(loi, hii), xi, d)
            } else {
                path_span(span_mid(loi, hii) + 1, hii, xi, d)
            }) by {}
        }
    }
}

impl RatchetTree {
    /// Inserts or overwrites the leaf with the given public key, and blanks
    /// every ancestor on the leaf's direct path: their secrets must be
    /// considered compromised from the new member's perspective until next
    /// refreshed.
    pub fn add_leaf(&mut self, leaf: usize, pk: &Vec<u8>)
        requires
            old(self).wf(),
            leaf < old(self)@.len(),
            leaf % 2 == 0,
            pk@.len() == 32,
        ensures
            ({
                let n = old(self)@.len() as int;
                let depth = depth_of(n);
                let leafi = leaf as int;
                &&& final(self)@.len() == n
                &&& final(self).wf()
                &&& forall|j: int|
                    0 <= j < n && !on_path(0, n, leafi, j) ==> final(self)@[j] == old(self)@[j]
                &&& final(self)@[leafi] == (NodeView {
                    public_key: Some(pk@),
                    private_key: None,
                })
                &&& forall|d: int|
                    1 <= d <= depth ==> final(self)@[path_node(0, n, leafi, d)]
                        == blank_node_view()
            }),
    {
        let n = self.nodes.len();
        let ghost ni = n as int;
        let ghost leafi = leaf as int;
        let depth = depth_of_size(n);
        let (path_nodes, _cos) = self.path_info(leaf);
        proof {
            lemma_path_span_props(0, ni, leafi, 0);
        }
        let node = Node { public_key: Some(bytes_clone(pk)), private_key: None };
        self.set_node(leaf, node);
        proof {
            assert forall|dd: int| 1 <= dd <= depth implies path_node(0, ni, leafi, dd)
                != leafi by {
                lemma_path_nodes_distinct(0, ni, leafi, 0, dd);
                lemma_path_span_props(0, ni, leafi, dd);
            }
        }
        let mut d: usize = 1;
        while d <= depth
            invariant
                n == self@.len(),
                ni == n as int,
                leafi == leaf as int,
                leaf < n,
                leaf % 2 == 0,
                depth == depth_of(ni),
                depth < n,
                path_nodes@.len() == depth + 1,
                forall|dd: int|
                    0 <= dd <= depth ==> (#[trigger] path_nodes@[dd]) as int == path_node(
                        0,
                        ni,
                        leafi,
                        dd,
                    ),
                1 <= d <= depth + 1,
                forall|j: int|
                    0 <= j < ni && !on_path(0, ni, leafi, j) ==> self@[j] == old(self)@[j],
                self@[leafi] == (NodeView { public_key: Some(pk@), private_key: None }),
                forall|dd: int|
                    1 <= dd < d ==> self@[path_node(0, ni, leafi, dd)] == blank_node_view(),
                self.wf(),
            decreases depth + 1 - d,
        {
            proof {
                lemma_path_span_props(0, ni, leafi, d as int);
                lemma_on_path_in_span(0, ni, leafi, path_node(0, ni, leafi, d as int));
            }
            self.set_node(path_nodes[d], blank_node());
            proof {
                let di = d as int;
                assert forall|dd: int| 1 <= dd < di implies self@[path_node(0, ni, leafi, dd)]
                    == blank_node_view() by {
                    lemma_path_nodes_distinct(0, ni, leafi, dd, di);
                    lemma_path_span_props(0, ni, leafi, dd);
                }
                assert(path_node(0, ni, leafi, di) != leafi) by {
                    lemma_path_nodes_distinct(0, ni, leafi, 0, di);
                    lemma_path_span_props(0, ni, leafi, 0);
                }
            }
            d += 1;
        }
    }

    /// Blanks the leaf, and then every ancestor whose subtree no longer
    /// holds any non-blank leaf.
    pub fn blank_leaf_cascade(&mut self, leaf: usize)
        requires
            old(self).wf(),
            leaf < old(self)@.len(),
            leaf % 2 == 0,
        ensures
            ({
                let n = old(self)@.len() as int;
                let depth = depth_of(n);
                let leafi = leaf as int;
                let blanked = old(self)@.update(leafi, blank_node_view());
                &&& final(self)@.len() == n
                &&& final(self).wf()
                &&& forall|j: int|
                    0 <= j < n && !on_path(0, n, leafi, j) ==> final(self)@[j] == old(self)@[j]
                &&& final(self)@[leafi] == blank_node_view()
                &&& forall|d: int|
                    1 <= d <= depth ==> final(self)@[path_node(0, n, leafi, d)] == (
                    if span_has_nonblank_leaf(
                        blanked,
                        path_span(0, n, leafi, d).0,
                        path_span(0, n, leafi, d).1,
                    ) {
                        old(self)@[path_node(0, n, leafi, d)]
                    } else {
                        blank_node_view()
                    })
            }),
    {
        let n = self.nodes.len();
        let ghost ni = n as int;
        let ghost leafi = leaf as int;
        let ghost blanked = old(self)@.update(leafi, blank_node_view());
        proof {
            assert(blanked.len() == ni);
            assert forall|k: int| 0 <= k < ni implies blanked[k] == (if k == leafi {
                blank_node_view()
            } else {
                old(self)@[k]
            }) by {}
        }
        let depth = depth_of_size(n);
        let (path_nodes, _cos) = self.path_info(leaf);
        let mut spans: Vec<(usize, usize)> = Vec::new();
        path_spans_rec(0, n, leaf, &mut spans);
        proof {
            assert forall|d: int| 0 <= d <= depth implies ((#[trigger] spans@[d]).0 as int,
            spans@[d].1 as int) == path_span(0, ni, leafi, d) by {
                assert(((spans@[0 + d]).0 as int, spans@[0 + d].1 as int) == path_span(
                    0,
                    ni,
                    leafi,
                    d,
                ));
            }
            lemma_path_span_props(0, ni, leafi, 0);
        }
        self.set_node(leaf, blank_node());
        proof {
            assert(self@ =~= blanked);
            assert forall|dd: int| 1 <= dd <= depth implies self@[path_node(0, ni, leafi, dd)]
                == old(self)@[path_node(0, ni, leafi, dd)] by {
                lemma_path_nodes_distinct(0, ni, leafi, 0, dd);
                lemma_path_span_props(0, ni, leafi, dd);
                lemma_path_span_props(0, ni, leafi, 0);
            }
        }
        let mut d: usize = 1;
        while d <= depth
            invariant
                n == self@.len(),
                ni == n as int,
                leafi == leaf as int,
                leaf < n,
                leaf % 2 == 0,
                depth == depth_of(ni),
                depth < n,
                blanked == old(self)@.update(leafi, blank_node_view()),
                blanked.len() == ni,
                forall|k: int|
                    0 <= k < ni ==> blanked[k] == (if k == leafi {
                        blank_node_view()
                    } else {
                        old(self)@[k]
                    }),
                path_nodes@.len() == depth + 1,
                spans@.len() == depth + 1,
                forall|dd: int|
                    0 <= dd <= depth ==> (#[trigger] path_nodes@[dd]) as int == path_node(
                        0,
                        ni,
                        leafi,
                        dd,
                    ),
                forall|dd: int|
                    0 <= dd <= depth ==> ((#[trigger] spans@[dd]).0 as int, spans@[dd].1 as int)
                        == path_span(0, ni, leafi, dd),
                1 <= d <= depth + 1,
                forall|j: int|
                    0 <= j < ni && !on_path(0, ni, leafi, j) ==> self@[j] == old(self)@[j],
                self@[leafi] == blank_node_view(),
                forall|dd: int|
                    1 <= dd < d ==> self@[path_node(0, ni, leafi, dd)] == (
                    if span_has_nonblank_leaf(
                        blanked,
                        path_span(0, ni, leafi, dd).0,
                        path_span(0, ni, leafi, dd).1,
                    ) {
                        old(self)@[path_node(0, ni, leafi, dd)]
                    } else {
                        blank_node_view()
                    }),
                forall|dd: int|
                    d <= dd <= depth ==> self@[path_node(0, ni, leafi, dd)] == old(self)@[path_node(
                        0,
                        ni,
                        leafi,
                        dd,
                    )],
                self.wf(),
            decreases depth + 1 - d,
        {
            let ghost di = d as int;
            proof {
                lemma_path_span_props(0, ni, leafi, di);
                lemma_on_path_in_span(0, ni, leafi, path_node(0, ni, leafi, di));
            }
            let (plo, phi) = spans[d];
            // The scan sees the current tree; at even indices it agrees
            // with the original tree with only the leaf blanked, since all
            // other path writes hit odd indices.
            proof {
                assert forall|k: int| 0 <= k < ni && k % 2 == 0 implies self@[k]
                    == blanked[k] by {
                    lemma_depth_nonneg(ni);
                    lemma_path_span_props(0, ni, leafi, 0);
                    if on_path(0, ni, leafi, k) {
                        lemma_on_path_even_is_leaf(0, ni, leafi, k);
                        assert(k == leafi);
                        assert(self@[leafi] == blank_node_view());
                        assert(blanked[k] == blank_node_view());
                    } else {
                        assert(k != leafi);
                        assert(self@[k] == old(self)@[k]);
                        assert(blanked[k] == old(self)@[k]);
                    }
                }
                assert(span_has_nonblank_leaf(self@, plo as int, phi as int)
                    == span_has_nonblank_leaf(blanked, plo as int, phi as int)) by {
                    if span_has_nonblank_leaf(self@, plo as int, phi as int) {
                        let j = choose|j: int|
                            plo <= j < phi && j % 2 == 0 && !(#[trigger] self@[j]).is_blank();
                        assert(!blanked[j].is_blank());
                    }
                    if span_has_nonblank_leaf(blanked, plo as int, phi as int) {
                        let j = choose|j: int|
                            plo <= j < phi && j % 2 == 0 && !(#[trigger] blanked[j]).is_blank();
                        assert(!self@[j].is_blank());
                    }
                }
            }
            if !self.has_nonblank_leaf(plo, phi) {
                self.set_node(path_nodes[d], blank_node());
            }
            proof {
                assert(path_node(0, ni, leafi, di) != leafi) by {
                    lemma_path_nodes_distinct(0, ni, leafi, 0, di);
                    lemma_path_span_props(0, ni, leafi, 0);
                }
                assert forall|dd: int| 1 <= dd < di + 1 implies self@[path_node(0, ni, leafi, dd)]
                    == (if span_has_nonblank_leaf(
                    blanked,
                    path_span(0, ni, leafi, dd).0,
                    path_span(0, ni, leafi, dd).1,
                ) {
                    old(self)@[path_node(0, ni, leafi, dd)]
                } else {
                    blank_node_view()
                }) by {
                    lemma_path_span_props(0, ni, leafi, dd);
                    if dd < di {
                        lemma_path_nodes_distinct(0, ni, leafi, dd, di);
                    }
                }
                assert forall|dd: int| di + 1 <= dd <= depth implies self@[path_node(
                    0,
                    ni,
                    leafi,
                    dd,
                )] == old(self)@[path_node(0, ni, leafi, dd)] by {
                    lemma_path_span_props(0, ni, leafi, dd);
                    lemma_path_nodes_distinct(0, ni, leafi, di, dd);
                }
            }
            d += 1;
        }
    }
}

/// The tree after blanking a leaf with cascade: the leaf goes blank, and
/// each of its ancestors goes blank exactly where its subtree no longer
/// holds any non-blank leaf; everything else is untouched.
pub open spec fn cascade_result(t: Seq<NodeView>, leaf: int) -> Seq<NodeView> {
    let n = t.len() as int;
    let blanked = t.update(leaf, blank_node_view());
    Seq::new(
        t.len(),
        |j: int|
            if j == leaf {
                blank_node_view()
            } else if on_path(0, n, leaf, j) {
                let d = choose|d: int|
                    0 <= d <= depth_of(n) && j == #[trigger] path_node(0, n, leaf, d);
                if span_has_nonblank_leaf(
                    blanked,
                    path_span(0, n, leaf, d).0,
                    path_span(0, n, leaf, d).1,
                ) {
                    t[j]
                } else {
                    blank_node_view()
                }
            } else {
                t[j]
            },
    )
}

/// What `blank_leaf_cascade` ensures pins the tree down to
/// `cascade_result`.
pub proof fn lemma_cascade_result(t: Seq<NodeView>, leaf: int, t2: Seq<NodeView>)
    requires
        span_wf(0, t.len() as int),
        0 <= leaf < t.len(),
        leaf % 2 == 0,
        t2.len() == t.len(),
        forall|j: int|
            0 <= j < t.len() && !on_path(0, t.len() as int, leaf, j) ==> t2[j] == t[j],
        t2[leaf] == blank_node_view(),
        forall|d: int|
            1 <= d <= depth_of(t.len() as int) ==> t2[path_node(0, t.len() as int, leaf, d)] == (
            if span_has_nonblank_leaf(
                t.update(leaf, blank_node_view()),
                path_span(0, t.len() as int, leaf, d).0,
                path_span(0, t.len() as int, leaf, d).1,
            ) {
                t[path_node(0, t.len() as int, leaf, d)]
            } else {
                blank_node_view()
            }),
    ensures
        t2 == cascade_result(t, leaf),
{
    let n = t.len() as int;
    lemma_depth_nonneg(n);
    assert forall|j: int| 0 <= j < n implies t2[j] == cascade_result(t, leaf)[j] by {
        if j == leaf {
        } else if on_path(0, n, leaf, j) {
            lemma_on_path_is_path_node(0, n, leaf, j);
            let d = choose|d: int| 0 <= d <= depth_of(n) && j == #[trigger] path_node(0, n, leaf, d);
            lemma_path_span_props(0, n, leaf, 0);
            if d == 0 {
                assert(j == leaf);
            }
        }
    }
    assert(t2 =~= cascade_result(t, leaf));
}

impl RatchetTree {
    /// Replays a received direct-path message from `sender_leaf` at a
    /// member sitting at `my_leaf`: decrypts the secret of the lowest
    /// common ancestor from the ciphertext addressed to this member's
    /// resolution node, re-derives all node secrets above it, verifies each
    /// derived public key against the one carried in the message, and
    /// adopts the carried public keys below. Returns the new root secret.
    ///
    /// Fails with `ValidationError` where the message length does not match
    /// the direct path, a public key has the wrong length, a ciphertext is
    /// missing, or a derived public key disagrees with the message; fails
    /// with `EncryptionError`, opaquely, where decryption is impossible. On
    /// failure the tree is in an unspecified state and must be discarded
    /// (callers work on a copy).
    pub fn apply_direct_path(
        &mut self,
        msg: &DirectPathMessage,
        sender_leaf: usize,
        my_leaf: usize,
    ) -> (r: Result<Vec<u8>, Error>)
        requires
            old(self).wf(),
            sender_leaf < old(self)@.len(),
            sender_leaf % 2 == 0,
            my_leaf < old(self)@.len(),
            my_leaf % 2 == 0,
            sender_leaf != my_leaf,
        ensures
            msg@.len() != depth_of(old(self)@.len() as int) + 1 ==> r == Err::<Vec<u8>, Error>(
                Error::ValidationError,
            ),
            r is Ok <==> apply_ok(old(self)@, msg@, sender_leaf as int, my_leaf as int),
            r matches Ok(rs) ==> ({
                let n = old(self)@.len() as int;
                let depth = depth_of(n);
                let sl = sender_leaf as int;
                let td = meet_depth(0, n, sl, my_leaf as int);
                let dec = apply_path_dec(old(self)@, msg@, sl, my_leaf as int);
                &&& msg@.len() == depth + 1
                &&& dec is Some
                &&& final(self)@.len() == n
                &&& final(self).wf()
                &&& forall|j: int|
                    0 <= j < n && !on_path(0, n, sl, j) ==> final(self)@[j] == old(self)@[j]
                &&& forall|d: int|
                    0 <= d < td ==> final(self)@[path_node(0, n, sl, d)] == (NodeView {
                        public_key: Some((#[trigger] msg@[d]).public_key),
                        private_key: None,
                    })
                &&& forall|d: int|
                    td <= d <= depth ==> final(self)@[path_node(0, n, sl, d)]
                        == node_view_from_secret(chain_secret(dec->Some_0, d - td))
                &&& forall|d: int|
                    td <= d <= depth ==> dh_pub_of(chain_secret(dec->Some_0, d - td))
                        == (#[trigger] msg@[d]).public_key
                &&& rs@ == chain_secret(dec->Some_0, depth - td)
            }),
            r is Err ==> (r == Err::<Vec<u8>, Error>(Error::ValidationError) || r == Err::<
                Vec<u8>,
                Error,
            >(Error::EncryptionError)),
    {
        let n = self.nodes.len();
        let ghost ni = n as int;
        let ghost sl = sender_leaf as int;
        let ghost me = my_leaf as int;
        let depth = depth_of_size(n);
        if msg.node_messages.len() != depth + 1 {
            return Err(Error::ValidationError);
        }
        // Every carried public key must have the DH scheme's length.
        let mut c: usize = 0;
        while c < msg.node_messages.len()
            invariant
                c <= msg.node_messages@.len(),
                forall|j: int|
                    0 <= j < c ==> (#[trigger] msg.node_messages@[j])@.public_key.len() == 32,
            decreases msg.node_messages@.len() - c,
        {
            if msg.node_messages[c].public_key.len() != 32 {
                proof {
                    assert(msg@[c as int] == msg.node_messages@[c as int]@);
                }
                return Err(Error::ValidationError);
            }
            c += 1;
        }
        let (path_nodes, cos) = self.path_info(sender_leaf);
        let td = meet_depth_exec(0, n, sender_leaf, my_leaf);
        let (clo, chi) = cos[td];
        proof {
            lemma_co_span_props(0, ni, sl, td as int);
        }
        let slot = match find_resolution_slot(&self.nodes, clo, chi, my_leaf) {
            (_, Some(s)) => s,
            (_, None) => {
                return Err(Error::EncryptionError);
            },
        };
        proof {
            lemma_res_slot_props(self@, clo as int, chi as int, me);
        }
        let pos = slot.0;
        let idx = slot.1;
        if pos >= msg.node_messages[td].node_secrets.len() {
            return Err(Error::ValidationError);
        }
        let sk = match &self.nodes[idx].private_key {
            Some(sk) => sk,
            None => {
                return Err(Error::EncryptionError);
            },
        };
        proof {
            assert(self@[idx as int] == self.nodes@[idx as int]@);
            assert(self@[idx as int].wf());
        }
        let s0 = match ecies_open(sk, &msg.node_messages[td].node_secrets[pos]) {
            Ok(p) => p,
            Err(_) => {
                return Err(Error::EncryptionError);
            },
        };
        proof {
            assert(msg@[td as int] == msg.node_messages@[td as int]@);
            assert(msg@[td as int].node_secrets[pos as int] == msg.node_messages@[
            td as int]@.node_secrets[pos as int]);
            assert(apply_path_dec(old(self)@, msg@, sl, me) == Some(s0@));
        }
        if s0.len() != 32 {
            return Err(Error::EncryptionError);
        }
        // Re-derive upward from the common ancestor, verifying each public
        // key against the message.
        let mut cur = bytes_clone(&s0);
        let mut root_secret = bytes_clone(&s0);
        let mut d = td;
        while d <= depth
            invariant
                n == self@.len(),
                ni == n as int,
                sl == sender_leaf as int,
                me == my_leaf as int,
                sender_leaf < n,
                sender_leaf % 2 == 0,
                my_leaf < n,
                my_leaf % 2 == 0,
                sender_leaf != my_leaf,
                depth == depth_of(ni),
                depth < n,
                msg.node_messages@.len() == depth + 1,
                forall|j: int|
                    0 <= j < msg.node_messages@.len() ==> (#[trigger] msg.node_messages@[
                    j])@.public_key.len() == 32,
                path_nodes@.len() == depth + 1,
                forall|dd: int|
                    0 <= dd <= depth ==> (#[trigger] path_nodes@[dd]) as int == path_node(
                        0,
                        ni,
                        sl,
                        dd,
                    ),
                1 <= td <= depth,
                old(self)@.len() == ni,
                td == meet_depth(0, ni, sl, me),
                apply_path_dec(old(self)@, msg@, sl, me) == Some(s0@),
                s0@.len() == 32,
                td <= d <= depth + 1,
                cur@ == chain_secret(s0@, d - td),
                cur@.len() == 32,
                root_secret@ == chain_secret(s0@, if d - td >= 1 {
                    d - td - 1
                } else {
                    0
                }),
                forall|j: int|
                    0 <= j < ni && !on_path(0, ni, sl, j) ==> self@[j] == old(self)@[j],
                forall|dd: int|
                    td <= dd < d ==> self@[path_node(0, ni, sl, dd)] == node_view_from_secret(
                        chain_secret(s0@, dd - td),
                    ),
                forall|dd: int|
                    td <= dd < d ==> dh_pub_of(chain_secret(s0@, dd - td)) == (#[trigger] msg@[
                    dd]).public_key,
                forall|dd: int|
                    0 <= dd < td || d <= dd <= depth ==> self@[path_node(0, ni, sl, dd)] == old(
                        self,
                    )@[path_node(0, ni, sl, dd)],
                self.wf(),
            decreases depth + 1 - d,
        {
            let ghost di = d as int;
            proof {
                lemma_path_span_props(0, ni, sl, di);
                lemma_on_path_in_span(0, ni, sl, path_node(0, ni, sl, di));
            }
            let node = node_from_secret(&cur);
            let derived_pk = match &node.public_key {
                Some(pk) => pk,
                None => {
                    return Err(Error::EncryptionError);
                },
            };
            if !crate::bytes_eq(derived_pk, &msg.node_messages[d].public_key) {
                proof {
                    assert(msg@[di] == msg.node_messages@[di]@);
                    assert(dh_pub_of(chain_secret(s0@, di - td)) != msg@[di].public_key);
                }
                return Err(Error::ValidationError);
            }
            self.set_node(path_nodes[d], node);
            proof {
                assert(msg@[di] == msg.node_messages@[di]@);
                assert(self@[path_node(0, ni, sl, di)] == node_view_from_secret(
                    chain_secret(s0@, di - td),
                ));
                assert forall|dd: int| td <= dd < di implies self@[path_node(0, ni, sl, dd)]
                    == node_view_from_secret(chain_secret(s0@, dd - td)) by {
                    lemma_path_nodes_distinct(0, ni, sl, dd, di);
                    lemma_path_span_props(0, ni, sl, dd);
                }
                assert forall|dd: int| 0 <= dd < td || di + 1 <= dd <= depth implies self@[
                path_node(0, ni, sl, dd)] == old(self)@[path_node(0, ni, sl, dd)] by {
                    if dd < di {
                        lemma_path_nodes_distinct(0, ni, sl, dd, di);
                    } else {
                        lemma_path_nodes_distinct(0, ni, sl, di, dd);
                    }
                    lemma_path_span_props(0, ni, sl, dd);
                }
            }
            root_secret = bytes_clone(&cur);
            cur = derive_parent_secret(&cur);
            d += 1;
        }
        // Adopt the carried public keys below the common ancestor.
        let mut d2: usize = 0;
        while d2 < td
            invariant
                n == self@.len(),
                ni == n as int,
                sl == sender_leaf as int,
                sender_leaf < n,
                sender_leaf % 2 == 0,
                depth == depth_of(ni),
                depth < n,
                msg.node_messages@.len() == depth + 1,
                forall|j: int|
                    0 <= j < msg.node_messages@.len() ==> (#[trigger] msg.node_messages@[
                    j])@.public_key.len() == 32,
                path_nodes@.len() == depth + 1,
                forall|dd: int|
                    0 <= dd <= depth ==> (#[trigger] path_nodes@[dd]) as int == path_node(
                        0,
                        ni,
                        sl,
                        dd,
                    ),
                1 <= td <= depth,
                d2 <= td,
                forall|j: int|
                    0 <= j < ni && !on_path(0, ni, sl, j) ==> self@[j] == old(self)@[j],
                forall|dd: int|
                    td <= dd <= depth ==> self@[path_node(0, ni, sl, dd)] == node_view_from_secret(
                        chain_secret(s0@, dd - td as int),
                    ),
                forall|dd: int|
                    0 <= dd < d2 ==> self@[path_node(0, ni, sl, dd)] == (NodeView {
                        public_key: Some((#[trigger] msg@[dd]).public_key),
                        private_key: None,
                    }),
                forall|dd: int|
                    d2 <= dd < td ==> self@[path_node(0, ni, sl, dd)] == old(self)@[path_node(
                        0,
                        ni,
                        sl,
                        dd,
                    )],
                self.wf(),
            decreases td - d2,
        {
            let ghost di = d2 as int;
            proof {
                lemma_path_span_props(0, ni, sl, di);
                lemma_on_path_in_span(0, ni, sl, path_node(0, ni, sl, di));
            }
            let node = Node {
                public_key: Some(bytes_clone(&msg.node_messages[d2].public_key)),
                private_key: None,
            };
            self.set_node(path_nodes[d2], node);
            proof {
                assert(msg@[di] == msg.node_messages@[di]@);
                assert(self@[path_node(0, ni, sl, di)] == (NodeView {
                    public_key: Some(msg@[di].public_key),
                    private_key: None,
                }));
                assert forall|dd: int| 0 <= dd < di implies self@[path_node(0, ni, sl, dd)]
                    == (NodeView {
                    public_key: Some((#[trigger] msg@[dd]).public_key),
                    private_key: None,
                }) by {
                    lemma_path_nodes_distinct(0, ni, sl, dd, di);
                    lemma_path_span_props(0, ni, sl, dd);
                }
                assert forall|dd: int| di + 1 <= dd <= depth implies self@[path_node(
                    0,
                    ni,
                    sl,
                    dd,
                )] == (if dd < td {
                    old(self)@[path_node(0, ni, sl, dd)]
                } else {
                    node_view_from_secret(chain_secret(s0@, dd - td as int))
                }) by {
                    lemma_path_nodes_distinct(0, ni, sl, di, dd);
                    lemma_path_span_props(0, ni, sl, dd);
                }
            }
            d2 += 1;
        }
        Ok(root_secret)
    }
}

} // verus!
