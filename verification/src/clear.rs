//! Planning the bulk reset of one tree's namespace.
//!
//! The engine offers no transactional range delete, so a tree is emptied
//! in compensation: under a consistent snapshot, an ordered forward scan
//! from the tree's identifier collects every key of the tree until the
//! first key outside the prefix; the keys of leaf length are kept and
//! stripped of the prefix; the caller pairs each with the value type's
//! zero value and applies all pairs as one batched tree update inside a
//! transaction, letting the tree algorithm prune its branches. The
//! resulting root must be the all-zero digest, or the caller aborts
//! without committing.
//!
//! This module holds the verified parts of that algorithm: the
//! extraction of exactly the tree's leaf keys from the scan, and the
//! check of the all-zero root.

use vstd::prelude::*;

use crate::codec::copy_range;
use crate::codec::Digest;
use crate::codec::DIGEST_BYTES;
use crate::default_store::CONTENT_NAMESPACE;
use crate::errors::StoreError;
use crate::handle::entries_view;
use crate::handle::scan_result_matches;
use crate::handle::ReadHandle;
use crate::lex::has_prefix;
use crate::lex::is_prefix_of;
use crate::lex::lex_le;
use crate::lex::lex_lt;
use crate::lex::lemma_prefix_interval;
use crate::lex::lemma_prefix_lex_le;
use crate::multi_tree::lemma_id_prefixes_key;
use crate::multi_tree::lemma_prefixed_key_injective;
use crate::multi_tree::prefixed_key;
use crate::multi_tree::tree_leaves;
use crate::multi_tree::valid_tree_id;

verus! {

/// Whether `k` is a physical leaf key of the tree named `tid`: it
/// carries the identifier and is followed by exactly one digest.
pub open spec fn is_tree_leaf_key(tid: Seq<u8>, k: Seq<u8>) -> bool {
    is_prefix_of(tid, k) && k.len() == tid.len() + DIGEST_BYTES
}

/// The view of collected digests as byte strings.
pub open spec fn digests_view(ds: Seq<Digest>) -> Seq<Seq<u8>> {
    Seq::new(ds.len(), |i: int| ds[i]@)
}

/// What the reset plan must hold: pairwise distinct 32-byte leaf keys,
/// each present in the namespace under the tree's prefix, and every
/// leaf key the tree holds among them.
pub open spec fn clear_plan_matches(m: Map<Seq<u8>, Seq<u8>>, tid: Seq<u8>, ks: Seq<Seq<u8>>) -> bool {
    &&& (forall|a: int| 0 <= a < ks.len() ==> (#[trigger] ks[a]).len() == DIGEST_BYTES)
    &&& (forall|a: int| 0 <= a < ks.len() ==> m.contains_key(prefixed_key(tid, #[trigger] ks[a])))
    &&& (forall|a: int, b: int|
        #![trigger ks[a], ks[b]]
        0 <= a < b < ks.len() ==> ks[a] != ks[b])
    &&& (forall|k: Seq<u8>|
        #[trigger] m.contains_key(k) && is_tree_leaf_key(tid, k) ==> exists|a: int|
            0 <= a < ks.len() && prefixed_key(tid, #[trigger] ks[a]) == k)
}

/// The collected keys match the plan once the walk over the scan stops,
/// whether at the end of the scan or at the first key outside the
/// tree's prefix: keys with the prefix are contiguous, so nothing past
/// the stopping point belongs to the tree.
proof fn lemma_plan_matches(
    m: Map<Seq<u8>, Seq<u8>>,
    tid: Seq<u8>,
    ev: Seq<(Seq<u8>, Seq<u8>)>,
    idxs: Seq<int>,
    dv: Seq<Seq<u8>>,
    bound: int,
)
    requires
        scan_result_matches(m, tid, ev),
        0 <= bound <= ev.len(),
        bound < ev.len() ==> !is_prefix_of(tid, ev[bound].0),
        forall|j: int| 0 <= j < bound ==> is_prefix_of(tid, (#[trigger] ev[j]).0),
        dv.len() == idxs.len(),
        forall|a: int| 0 <= a < idxs.len() ==> 0 <= #[trigger] idxs[a] < bound,
        forall|a: int, b: int|
            #![trigger idxs[a], idxs[b]]
            0 <= a < b < idxs.len() ==> idxs[a] < idxs[b],
        forall|a: int|
            0 <= a < dv.len() ==> prefixed_key(tid, #[trigger] dv[a]) == ev[idxs[a]].0,
        forall|a: int| 0 <= a < dv.len() ==> (#[trigger] dv[a]).len() == DIGEST_BYTES,
        forall|j: int|
            0 <= j < bound && is_tree_leaf_key(tid, (#[trigger] ev[j]).0) ==> exists|a: int|
                0 <= a < idxs.len() && #[trigger] idxs[a] == j,
    ensures
        clear_plan_matches(m, tid, dv),
{
    assert forall|a: int| 0 <= a < dv.len() implies m.contains_key(
        prefixed_key(tid, #[trigger] dv[a]),
    ) by {
        let j = idxs[a];
        assert(m.contains_pair(ev[j].0, ev[j].1));
    }
    assert forall|a: int, b: int|
        #![trigger dv[a], dv[b]]
        0 <= a < b < dv.len() implies dv[a] != dv[b] by {
        assert(idxs[a] < idxs[b]);
        assert(lex_lt(ev[idxs[a]].0, ev[idxs[b]].0));
        if dv[a] == dv[b] {
            assert(ev[idxs[a]].0 == ev[idxs[b]].0);
        }
    }
    assert forall|k: Seq<u8>| #[trigger] m.contains_key(k) && is_tree_leaf_key(tid, k) implies (
    exists|a: int| 0 <= a < dv.len() && prefixed_key(tid, #[trigger] dv[a]) == k) by {
        lemma_prefix_lex_le(tid, k);
        let j = choose|j: int| 0 <= j < ev.len() && (#[trigger] ev[j]).0 == k;
        if j >= bound {
            assert(bound < ev.len());
            if j == bound {
                assert(is_prefix_of(tid, ev[bound].0));
            } else {
                assert(lex_lt(ev[bound].0, ev[j].0));
                assert(lex_le(tid, ev[bound].0));
                lemma_prefix_interval(tid, ev[bound].0, ev[j].0);
            }
            assert(false);
        }
        let a = choose|a: int| 0 <= a < idxs.len() && #[trigger] idxs[a] == j;
        assert(prefixed_key(tid, dv[a]) == k);
    }
}

/// The reset plan names exactly the leaves the tree holds: every
/// collected key is a leaf of the tree's reference view, and every leaf
/// of that view is collected. A batched update of the plan's keys to the
/// zero value therefore leaves no leaf of the tree standing.
pub proof fn lemma_clear_plan_covers_leaf_view(
    m: Map<Seq<u8>, Seq<u8>>,
    tid: Seq<u8>,
    ks: Seq<Seq<u8>>,
)
    requires
        clear_plan_matches(m, tid, ks),
    ensures
        forall|a: int| 0 <= a < ks.len() ==> tree_leaves(m, tid).contains_key(#[trigger] ks[a]),
        forall|k: Seq<u8>|
            #[trigger] tree_leaves(m, tid).contains_key(k) ==> exists|a: int|
                0 <= a < ks.len() && ks[a] == k,
{
    assert forall|k: Seq<u8>| #[trigger] tree_leaves(m, tid).contains_key(k) implies exists|a: int|
        0 <= a < ks.len() && ks[a] == k by {
        lemma_id_prefixes_key(tid, k);
        assert(is_tree_leaf_key(tid, prefixed_key(tid, k)));
        assert(m.contains_key(prefixed_key(tid, k)));
        let a = choose|a: int|
            0 <= a < ks.len() && prefixed_key(tid, #[trigger] ks[a]) == prefixed_key(tid, k);
        lemma_prefixed_key_injective(tid, ks[a], k);
    }
}

/// Collects, under one consistent view, the leaf keys of the tree named
/// `tree_id`: exactly the keys of the tree's namespace range that carry
/// the identifier followed by one digest, with the identifier stripped.
/// The caller pairs them with the value type's zero value to empty the
/// tree in one batched update.
pub fn collect_leaf_keys<H: ReadHandle>(h: &H, tree_id: &Vec<u8>) -> (r: Result<
    Vec<Digest>,
    StoreError,
>)
    requires
        h.inv(),
        valid_tree_id(tree_id@),
        tree_id@.len() + DIGEST_BYTES <= usize::MAX,
    ensures
        match r {
            Ok(keys) => clear_plan_matches(
                h.contents(CONTENT_NAMESPACE as int),
                tree_id@,
                digests_view(keys@),
            ),
            Err(e) => e == StoreError::StorageIo,
        },
{
    let ghost m = h.contents(CONTENT_NAMESPACE as int);
    let entries = match h.scan_from(CONTENT_NAMESPACE, tree_id) {
        Ok(es) => es,
        Err(e) => {
            return Err(e);
        },
    };
    let ghost ev = entries_view(entries@);
    let leaf_len = tree_id.len() + DIGEST_BYTES;
    let mut keys: Vec<Digest> = Vec::new();
    let ghost mut idxs: Seq<int> = Seq::empty();
    let mut i: usize = 0;
    while i < entries.len()
        invariant
            i <= ev.len(),
            ev == entries_view(entries@),
            m == h.contents(CONTENT_NAMESPACE as int),
            scan_result_matches(m, tree_id@, ev),
            valid_tree_id(tree_id@),
            tree_id@.len() + DIGEST_BYTES <= usize::MAX,
            leaf_len == tree_id@.len() + DIGEST_BYTES,
            forall|j: int| 0 <= j < i ==> is_prefix_of(tree_id@, (#[trigger] ev[j]).0),
            digests_view(keys@).len() == idxs.len(),
            forall|a: int| 0 <= a < idxs.len() ==> 0 <= #[trigger] idxs[a] < i,
            forall|a: int, b: int|
                #![trigger idxs[a], idxs[b]]
                0 <= a < b < idxs.len() ==> idxs[a] < idxs[b],
            forall|a: int|
                0 <= a < idxs.len() ==> prefixed_key(tree_id@, #[trigger] digests_view(keys@)[a])
                    == ev[idxs[a]].0,
            forall|a: int|
                0 <= a < idxs.len() ==> (#[trigger] digests_view(keys@)[a]).len() == DIGEST_BYTES,
            forall|j: int|
                0 <= j < i && is_tree_leaf_key(tree_id@, (#[trigger] ev[j]).0) ==> exists|a: int|
                    0 <= a < idxs.len() && #[trigger] idxs[a] == j,
        decreases entries@.len() - i,
    {
        if !has_prefix(&entries[i].0, tree_id) {
            proof {
                lemma_plan_matches(m, tree_id@, ev, idxs, digests_view(keys@), i as int);
            }
            return Ok(keys);
        }
        if entries[i].0.len() == leaf_len {
            let ghost keys_prev = keys@;
            let ghost idxs_prev = idxs;
            let suffix = copy_range(&entries[i].0, tree_id.len(), leaf_len);
            keys.push(Digest { bytes: suffix });
            proof {
                idxs = idxs.push(i as int);
                let dv = digests_view(keys@);
                assert(dv.len() == idxs.len());
                assert(dv[idxs.len() - 1] == entries@[i as int].0@.subrange(
                    tree_id@.len() as int,
                    leaf_len as int,
                ));
                assert(prefixed_key(tree_id@, dv[idxs.len() - 1]) =~= ev[i as int].0) by {
                    assert(is_prefix_of(tree_id@, ev[i as int].0));
                    assert forall|x: int|
                        0 <= x < ev[i as int].0.len() implies prefixed_key(
                        tree_id@,
                        dv[idxs.len() - 1],
                    )[x] == ev[i as int].0[x] by {
                        if x < tree_id@.len() {
                            assert(ev[i as int].0.subrange(0, tree_id@.len() as int)[x] == ev[
                                i as int
                            ].0[x]);
                        }
                    }
                }
                assert forall|a: int|
                    0 <= a < idxs.len() implies prefixed_key(tree_id@, #[trigger] dv[a]) == ev[
                    idxs[a]
                ].0 by {
                    if a < idxs.len() - 1 {
                        assert(dv[a] == digests_view(keys_prev)[a]);
                        assert(idxs[a] == idxs_prev[a]);
                    }
                }
                assert forall|a: int|
                    0 <= a < idxs.len() implies (#[trigger] dv[a]).len() == DIGEST_BYTES by {
                    if a < idxs.len() - 1 {
                        assert(dv[a] == digests_view(keys_prev)[a]);
                    }
                }
                assert forall|j: int|
                    0 <= j < i + 1 && is_tree_leaf_key(tree_id@, (#[trigger] ev[j]).0) implies
                    exists|a: int| 0 <= a < idxs.len() && #[trigger] idxs[a] == j by {
                    if j < i {
                        let a = choose|a: int|
                            0 <= a < idxs_prev.len() && #[trigger] idxs_prev[a] == j;
                        assert(idxs[a] == j);
                    } else {
                        assert(idxs[idxs.len() - 1] == j);
                    }
                }
            }
        } else {
            proof {
                assert forall|j: int|
                    0 <= j < i + 1 && is_tree_leaf_key(tree_id@, (#[trigger] ev[j]).0) implies
                    exists|a: int| 0 <= a < idxs.len() && #[trigger] idxs[a] == j by {
                    if j < i {
                    } else {
                        assert(ev[j].0.len() != tree_id@.len() + DIGEST_BYTES);
                    }
                }
            }
        }
        i += 1;
    }
    proof {
        lemma_plan_matches(m, tree_id@, ev, idxs, digests_view(keys@), ev.len() as int);
    }
    Ok(keys)
}

/// Checks the post-condition of a bulk reset: the recomputed root must
/// be the all-zero digest, the root of the empty tree. Anything else is
/// reported, so the caller aborts instead of committing.
pub fn check_clear_root(root: &Digest) -> (r: Result<(), StoreError>)
    requires
        root.wf(),
    ensures
        match r {
            Ok(()) => root.spec_is_zero(),
            Err(e) => e == StoreError::ClearInvariantViolation && !root.spec_is_zero(),
        },
{
    if root.is_zero() {
        Ok(())
    } else {
        Err(StoreError::ClearInvariantViolation)
    }
}

} // verus!
