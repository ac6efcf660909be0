//! Group-wide laws, proved once and for all over the contracts of the
//! state machine.

use crate::group::{enc_group_pub, roster_views, tree_pub_views, GroupOperation, GroupState,
    Handshake};
use crate::tree::{blank_node_view, cascade_result, chain_secret, depth_of, lemma_depth_nonneg,
    lemma_on_path_is_path_node, lemma_path_span_props, meet_depth, node_view_from_secret, on_path,
    parent_secret_of, path_node, span_has_nonblank_leaf, NodeView};
use vstd::prelude::*;

verus! {

/// Epoch monotonicity: a successfully processed handshake advances the
/// epoch by exactly one, and never decreases it. (A failed call returns an
/// error and no state, so the caller's epoch is unchanged by construction.)
pub proof fn lemma_epoch_monotonicity(s: GroupState, h: Handshake, ns: GroupState)
    requires
        GroupState::process_post(s, h, ns),
    ensures
        ns.epoch == s.epoch + 1,
        ns.epoch > s.epoch,
{
}

/// Non-mutation on failure: no committed state satisfies the processing
/// contract for a malformed handshake — one with the wrong prior epoch, an
/// unknown or vacant signer slot, a signature that does not verify, or a
/// confirmation that differs from the MAC its operation's commit would
/// derive (a tampered confirmation field). `process_handshake` then
/// returns the matching error and no new state; the caller's state, taken
/// by shared reference, is untouched on every failure by construction.
pub proof fn lemma_no_commit_for_malformed(s: GroupState, h: Handshake, ns: GroupState)
    requires
        h.prior_epoch != s.epoch || !s.signer_ok(h) || !s.sig_ok(h) || !GroupState::op_conf_matches(
            s,
            h,
        ),
    ensures
        !GroupState::process_post(s, h, ns),
{
    if GroupState::process_post(s, h, ns) {
        match h.operation {
            GroupOperation::Init => {},
            GroupOperation::Update(u) => {
                assert(GroupState::update_conf_matches(s, h, u));
            },
            GroupOperation::Add(a) => {
                assert(GroupState::add_conf_matches(s, h));
            },
            GroupOperation::Remove(rm) => {
                assert(GroupState::remove_conf_matches(s, h, rm));
            },
        }
    }
}

/// Forward derivation only: on a refreshed direct path, every ancestor's
/// secret is derivable from its child's secret by the one-way parent
/// derivation; nothing in this library derives a child's secret from an
/// ancestor's.
pub proof fn lemma_forward_derivation(fresh: Seq<u8>, d: int)
    requires
        d >= 1,
    ensures
        chain_secret(fresh, d) == parent_secret_of(chain_secret(fresh, d - 1)),
        node_view_from_secret(chain_secret(fresh, d)).private_key == Some(
            parent_secret_of(chain_secret(fresh, d - 1)),
        ),
{
}

/// Tree consistency: two members of the same group whose publicly
/// observable states agree, and who both successfully process the same
/// handshake, end with publicly observable states that agree — and hence
/// with byte-identical serializations (roster, tree public keys, epoch,
/// transcript hash).
/// Helper: public tree agreement after a processed `Update`.
proof fn lemma_update_trees_agree(
    a: GroupState,
    b: GroupState,
    h: Handshake,
    u: crate::group::GroupUpdate,
    ra: GroupState,
    rb: GroupState,
)
    requires
        a.wf(),
        b.wf(),
        GroupState::pub_eq(a, b),
        h.operation matches GroupOperation::Update(u2) && u2 == u,
        GroupState::process_post(a, h, ra),
        GroupState::process_post(b, h, rb),
    ensures
        tree_pub_views(ra.tree@) == tree_pub_views(rb.tree@),
{
    let n = a.tree@.len() as int;
    assert(tree_pub_views(a.tree@).len() == n);
    assert(b.tree@.len() == n);
    let sl = GroupState::leaf_of(h.signer_index as int);
    let me_a = GroupState::leaf_of(a.roster_index as int);
    let me_b = GroupState::leaf_of(b.roster_index as int);
    let depth = depth_of(n);
    lemma_depth_nonneg(n);
    assert forall|j: int| 0 <= j < n implies tree_pub_views(ra.tree@)[j] == tree_pub_views(
        rb.tree@,
    )[j] by {
        assert(tree_pub_views(ra.tree@)[j] == ra.tree@[j].public_key);
        assert(tree_pub_views(rb.tree@)[j] == rb.tree@[j].public_key);
        if on_path(0, n, sl, j) {
            lemma_on_path_is_path_node(0, n, sl, j);
            let d = choose|d: int| 0 <= d <= depth && j == #[trigger] path_node(0, n, sl, d);
            let td_a = meet_depth(0, n, sl, me_a);
            let td_b = meet_depth(0, n, sl, me_b);
            // On the signer's path both members carry exactly the
            // message's public keys, whether adopted or re-derived.
            assert(ra.tree@[j].public_key == Some(u.path@[d].public_key));
            assert(rb.tree@[j].public_key == Some(u.path@[d].public_key));
        } else {
            assert(ra.tree@[j] == a.tree@[j]);
            assert(rb.tree@[j] == b.tree@[j]);
            assert(tree_pub_views(a.tree@)[j] == tree_pub_views(b.tree@)[j]);
        }
    }
    assert(tree_pub_views(ra.tree@) =~= tree_pub_views(rb.tree@));
}

/// Helper: public tree agreement after a processed `Add`.
#[verifier::rlimit(100)]
proof fn lemma_add_trees_agree(
    a: GroupState,
    b: GroupState,
    h: Handshake,
    ad: crate::group::GroupAdd,
    ra: GroupState,
    rb: GroupState,
)
    requires
        a.wf(),
        b.wf(),
        GroupState::pub_eq(a, b),
        h.operation matches GroupOperation::Add(ad2) && ad2 == ad,
        GroupState::process_post(a, h, ra),
        GroupState::process_post(b, h, rb),
    ensures
        tree_pub_views(ra.tree@) == tree_pub_views(rb.tree@),
{
    let n = a.tree@.len() as int;
    assert(tree_pub_views(a.tree@).len() == n);
    assert(b.tree@.len() == n);
    let idx = ad.roster_index as int;
    let old_len = a.roster@.len() as int;
    assert(roster_views(a.roster@).len() == old_len);
    assert(b.roster@.len() == old_len);
    let append = idx == old_len;
    assert(a.tree.num_leaves() == b.tree.num_leaves());
    let grow = append && old_len + 1 > a.tree.num_leaves();
    let n2 = GroupState::add_tree_size(a, ad);
    assert(GroupState::add_tree_size(b, ad) == n2);
    let leaf = GroupState::leaf_of(idx);
    let depth = depth_of(n2);
    lemma_depth_nonneg(n2);
    let nl = a.tree.num_leaves();
    assert(n == 2 * nl - 1);
    assert(crate::tree::is_tree_size(n2)) by {
        if grow {
            assert((2 * n + 1 - 1) / 2 == n);
        }
    }
    assert(n2 <= 0x10000) by {
        if grow {
            assert(old_len + 1 <= 0x4000);
            assert(nl == old_len);
        }
    }
    assert(crate::tree::span_wf(0, n2));
    assert(0 <= leaf < n2) by {
        if grow {
            assert(nl == old_len);
        } else {
            if append {
                assert(old_len + 1 <= nl);
            } else {
                assert(idx < old_len);
                assert(old_len <= nl);
            }
        }
    }
    // The bundle's key for the suite is unique, so both sides set the same
    // leaf public key.
    let i_a = choose|i: int|
        0 <= i < ad.init_key.cipher_suites@.len() && (#[trigger] ad.init_key.cipher_suites@[i])
            == a.cs && ra.tree@[leaf] == (NodeView {
            public_key: Some(ad.init_key.init_keys@[i]@),
            private_key: None,
        });
    let i_b = choose|i: int|
        0 <= i < ad.init_key.cipher_suites@.len() && (#[trigger] ad.init_key.cipher_suites@[i])
            == b.cs && rb.tree@[leaf] == (NodeView {
            public_key: Some(ad.init_key.init_keys@[i]@),
            private_key: None,
        });
    assert(i_a == i_b);
    assert forall|j: int| 0 <= j < n2 implies tree_pub_views(ra.tree@)[j] == tree_pub_views(
        rb.tree@,
    )[j] by {
        assert(tree_pub_views(ra.tree@)[j] == ra.tree@[j].public_key);
        assert(tree_pub_views(rb.tree@)[j] == rb.tree@[j].public_key);
        if j == leaf {
            assert(ra.tree@[j] == (NodeView {
                public_key: Some(ad.init_key.init_keys@[i_a]@),
                private_key: None,
            }));
            assert(rb.tree@[j] == (NodeView {
                public_key: Some(ad.init_key.init_keys@[i_a]@),
                private_key: None,
            }));
        } else if on_path(0, n2, leaf, j) {
            lemma_on_path_is_path_node(0, n2, leaf, j);
            let d = choose|d: int| 0 <= d <= depth && j == #[trigger] path_node(0, n2, leaf, d);
            lemma_path_span_props(0, n2, leaf, 0);
            assert(path_node(0, n2, leaf, 0) == leaf);
            if d == 0 {
                assert(j == leaf);
                assert(false);
            }
            assert(1 <= d <= depth);
            assert(GroupState::add_parts_post(a, ad, ra.roster@, ra.tree@));
            assert(GroupState::add_parts_post(b, ad, rb.roster@, rb.tree@));
            assert(ra.tree@[path_node(0, n2, leaf, d)] == blank_node_view());
            assert(rb.tree@[path_node(0, n2, leaf, d)] == blank_node_view());
            assert(ra.tree@[j] == blank_node_view());
            assert(rb.tree@[j] == blank_node_view());
        } else {
            if j < n {
                assert(ra.tree@[j] == a.tree@[j]);
                assert(rb.tree@[j] == b.tree@[j]);
                assert(tree_pub_views(a.tree@)[j] == tree_pub_views(b.tree@)[j]);
            } else {
                assert(ra.tree@[j] == blank_node_view());
                assert(rb.tree@[j] == blank_node_view());
            }
        }
    }
    assert(tree_pub_views(ra.tree@) =~= tree_pub_views(rb.tree@));
}

/// Helper: the cascade of a removal agrees publicly across members whose
/// public trees agree.
proof fn lemma_cascade_pub_agree(a: GroupState, b: GroupState, rleaf: int)
    requires
        a.wf(),
        b.wf(),
        GroupState::pub_eq(a, b),
        0 <= rleaf < a.tree@.len(),
        rleaf % 2 == 0,
    ensures
        forall|j: int|
            0 <= j < a.tree@.len() ==> (#[trigger] cascade_result(a.tree@, rleaf)[j]).public_key
                == cascade_result(b.tree@, rleaf)[j].public_key,
{
    let n = a.tree@.len() as int;
    assert(tree_pub_views(a.tree@).len() == n);
    assert(b.tree@.len() == n);
    lemma_depth_nonneg(n);
    let ct_a = cascade_result(a.tree@, rleaf);
    let ct_b = cascade_result(b.tree@, rleaf);
    let blanked_a = a.tree@.update(rleaf, blank_node_view());
    let blanked_b = b.tree@.update(rleaf, blank_node_view());
    assert forall|k: int| 0 <= k < n implies blanked_a[k].public_key == blanked_b[
    k].public_key by {
        if k != rleaf {
            assert(tree_pub_views(a.tree@)[k] == tree_pub_views(b.tree@)[k]);
        }
    }
    assert forall|j: int| 0 <= j < n implies (#[trigger] ct_a[j]).public_key
        == ct_b[j].public_key by {
        if j != rleaf && on_path(0, n, rleaf, j) {
            lemma_on_path_is_path_node(0, n, rleaf, j);
            let d = choose|d: int| 0 <= d <= depth_of(n) && j == #[trigger] path_node(0, n, rleaf, d);
            lemma_path_span_props(0, n, rleaf, d);
            let (plo, phi) = crate::tree::path_span(0, n, rleaf, d);
            assert(span_has_nonblank_leaf(blanked_a, plo, phi) == span_has_nonblank_leaf(
                blanked_b,
                plo,
                phi,
            )) by {
                if span_has_nonblank_leaf(blanked_a, plo, phi) {
                    let w = choose|w: int|
                        plo <= w < phi && w % 2 == 0 && !(#[trigger] blanked_a[w]).is_blank();
                    assert(0 <= w < n);
                    assert(!blanked_b[w].is_blank());
                }
                if span_has_nonblank_leaf(blanked_b, plo, phi) {
                    let w = choose|w: int|
                        plo <= w < phi && w % 2 == 0 && !(#[trigger] blanked_b[w]).is_blank();
                    assert(0 <= w < n);
                    assert(!blanked_a[w].is_blank());
                }
            }
            assert(tree_pub_views(a.tree@)[j] == tree_pub_views(b.tree@)[j]);
        } else if j != rleaf {
            assert(tree_pub_views(a.tree@)[j] == tree_pub_views(b.tree@)[j]);
        }
    }
}

/// Helper: public tree agreement after a processed `Remove`.
proof fn lemma_remove_trees_agree(
    a: GroupState,
    b: GroupState,
    h: Handshake,
    rm: crate::group::GroupRemove,
    ra: GroupState,
    rb: GroupState,
)
    requires
        a.wf(),
        b.wf(),
        GroupState::pub_eq(a, b),
        h.operation matches GroupOperation::Remove(rm2) && rm2 == rm,
        GroupState::process_post(a, h, ra),
        GroupState::process_post(b, h, rb),
    ensures
        tree_pub_views(ra.tree@) == tree_pub_views(rb.tree@),
{
    let n = a.tree@.len() as int;
    assert(tree_pub_views(a.tree@).len() == n);
    assert(b.tree@.len() == n);
    let removed = rm.removed_roster_index as int;
    let rleaf = 2 * removed;
    let sl = GroupState::leaf_of(h.signer_index as int);
    let me_a = GroupState::leaf_of(a.roster_index as int);
    let me_b = GroupState::leaf_of(b.roster_index as int);
    let depth = depth_of(n);
    lemma_depth_nonneg(n);
    assert(0 <= rleaf < n) by {
        assert(removed < a.roster@.len());
        assert(a.roster@.len() <= a.tree.num_leaves());
    }
    lemma_cascade_pub_agree(a, b, rleaf);
    let ct_a = cascade_result(a.tree@, rleaf);
    let ct_b = cascade_result(b.tree@, rleaf);
    assert forall|j: int| 0 <= j < n implies tree_pub_views(ra.tree@)[j] == tree_pub_views(
        rb.tree@,
    )[j] by {
        assert(tree_pub_views(ra.tree@)[j] == ra.tree@[j].public_key);
        assert(tree_pub_views(rb.tree@)[j] == rb.tree@[j].public_key);
        if on_path(0, n, sl, j) {
            lemma_on_path_is_path_node(0, n, sl, j);
            let d = choose|d: int| 0 <= d <= depth && j == #[trigger] path_node(0, n, sl, d);
            let td_a = meet_depth(0, n, sl, me_a);
            let td_b = meet_depth(0, n, sl, me_b);
            assert(ra.tree@[j].public_key == Some(rm.path@[d].public_key));
            assert(rb.tree@[j].public_key == Some(rm.path@[d].public_key));
        } else {
            assert(ra.tree@[j] == ct_a[j]);
            assert(rb.tree@[j] == ct_b[j]);
            assert(ct_a[j].public_key == ct_b[j].public_key);
        }
    }
    assert(tree_pub_views(ra.tree@) =~= tree_pub_views(rb.tree@));
}

/// Tree consistency: two members of the same group whose publicly
/// observable states agree, and who both successfully process the same
/// handshake, end with publicly observable states that agree — and hence
/// with byte-identical serializations (roster, tree public keys, epoch,
/// transcript hash).
pub proof fn lemma_tree_consistency(
    a: GroupState,
    b: GroupState,
    h: Handshake,
    ra: GroupState,
    rb: GroupState,
)
    requires
        a.wf(),
        b.wf(),
        GroupState::pub_eq(a, b),
        GroupState::process_post(a, h, ra),
        GroupState::process_post(b, h, rb),
    ensures
        GroupState::pub_eq(ra, rb),
        enc_group_pub(
            ra.cs,
            ra.epoch,
            ra.transcript_hash@,
            roster_views(ra.roster@),
            tree_pub_views(ra.tree@),
        ) == enc_group_pub(
            rb.cs,
            rb.epoch,
            rb.transcript_hash@,
            roster_views(rb.roster@),
            tree_pub_views(rb.tree@),
        ),
{
    match h.operation {
        GroupOperation::Update(u) => {
            lemma_update_trees_agree(a, b, h, u, ra, rb);
        },
        GroupOperation::Add(ad) => {
            lemma_add_trees_agree(a, b, h, ad, ra, rb);
        },
        GroupOperation::Remove(rm) => {
            lemma_remove_trees_agree(a, b, h, rm, ra, rb);
        },
        GroupOperation::Init => {
            assert(false);
        },
    }
    assert(roster_views(ra.roster@) =~= roster_views(rb.roster@));
}

} // verus!
