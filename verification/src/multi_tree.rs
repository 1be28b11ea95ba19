//! Sharing one physical namespace among several logical trees.
//!
//! Every content key of a tree is the tree's identifier followed by the
//! encoded node key. Identifiers are chosen by the caller under two
//! documented disciplines: an identifier never starts with the reserved
//! root-registry marker byte, and the identifiers in use are prefix-free
//! (none is a prefix of another). Under those disciplines the key ranges
//! of distinct trees are disjoint, which is proved here.

use vstd::prelude::*;

use crate::codec::append_bytes;
use crate::codec::lemma_branch_key_encoding_injective;
use crate::codec::spec_encode_branch_key;
use crate::codec::DIGEST_BYTES;
use crate::lex::is_prefix_of;

verus! {

/// The reserved first byte of every root-registry key. No valid tree
/// identifier starts with it.
pub const ROOT_REGISTRY_MARKER: u8 = 0;

/// A caller-chosen tree identifier is valid when it is non-empty and
/// does not start with the reserved registry marker.
pub open spec fn valid_tree_id(id: Seq<u8>) -> bool {
    0 < id.len() && id[0] != ROOT_REGISTRY_MARKER
}

/// The physical key of one tree's node: the identifier, verbatim, then
/// the encoded branch key or the raw leaf key.
pub open spec fn prefixed_key(id: Seq<u8>, suffix: Seq<u8>) -> Seq<u8> {
    id + suffix
}

/// Whether `id` may name a tree.
pub fn is_valid_tree_id(id: &Vec<u8>) -> (r: bool)
    ensures
        r == valid_tree_id(id@),
{
    id.len() > 0 && id[0] != ROOT_REGISTRY_MARKER
}

/// Builds the physical key of one tree's node.
pub fn make_prefixed_key(id: &Vec<u8>, suffix: &Vec<u8>) -> (r: Vec<u8>)
    ensures
        r@ == prefixed_key(id@, suffix@),
{
    let mut r: Vec<u8> = Vec::new();
    append_bytes(&mut r, id);
    append_bytes(&mut r, suffix);
    r
}

/// A tree's identifier prefixes each of the tree's physical keys.
pub proof fn lemma_id_prefixes_key(id: Seq<u8>, suffix: Seq<u8>)
    ensures
        is_prefix_of(id, prefixed_key(id, suffix)),
{
    assert(prefixed_key(id, suffix).subrange(0, id.len() as int) =~= id);
}

/// Two distinct, mutually prefix-free identifiers never produce the same
/// physical key, whatever the two trees store.
pub proof fn lemma_distinct_trees_never_collide(t1: Seq<u8>, t2: Seq<u8>, s1: Seq<u8>, s2: Seq<u8>)
    requires
        t1 != t2,
        !is_prefix_of(t1, t2),
        !is_prefix_of(t2, t1),
    ensures
        prefixed_key(t1, s1) != prefixed_key(t2, s2),
{
    if prefixed_key(t1, s1) == prefixed_key(t2, s2) {
        if t1.len() <= t2.len() {
            assert(t2.subrange(0, t1.len() as int) =~= t1) by {
                assert forall|j: int| 0 <= j < t1.len() implies t2.subrange(0, t1.len() as int)[j]
                    == t1[j] by {
                    assert(prefixed_key(t2, s2)[j] == t2[j]);
                    assert(prefixed_key(t1, s1)[j] == t1[j]);
                }
            }
            assert(is_prefix_of(t1, t2));
        } else {
            assert(t1.subrange(0, t2.len() as int) =~= t2) by {
                assert forall|j: int| 0 <= j < t2.len() implies t1.subrange(0, t2.len() as int)[j]
                    == t2[j] by {
                    assert(prefixed_key(t1, s1)[j] == t1[j]);
                    assert(prefixed_key(t2, s2)[j] == t2[j]);
                }
            }
            assert(is_prefix_of(t2, t1));
        }
    }
}

/// Isolation of one tree from another: writing or deleting a key of the
/// first tree leaves the presence and the value of every key of the
/// second tree exactly as they were, for any pair of distinct, mutually
/// prefix-free identifiers.
pub proof fn lemma_tree_isolation(
    m: Map<Seq<u8>, Seq<u8>>,
    t1: Seq<u8>,
    s1: Seq<u8>,
    v: Seq<u8>,
    t2: Seq<u8>,
    s2: Seq<u8>,
)
    requires
        t1 != t2,
        !is_prefix_of(t1, t2),
        !is_prefix_of(t2, t1),
    ensures
        m.insert(prefixed_key(t1, s1), v).contains_key(prefixed_key(t2, s2)) == m.contains_key(
            prefixed_key(t2, s2),
        ),
        m.contains_key(prefixed_key(t2, s2)) ==> m.insert(prefixed_key(t1, s1), v)[prefixed_key(
            t2,
            s2,
        )] == m[prefixed_key(t2, s2)],
        m.remove(prefixed_key(t1, s1)).contains_key(prefixed_key(t2, s2)) == m.contains_key(
            prefixed_key(t2, s2),
        ),
        m.contains_key(prefixed_key(t2, s2)) ==> m.remove(prefixed_key(t1, s1))[prefixed_key(
            t2,
            s2,
        )] == m[prefixed_key(t2, s2)],
{
    lemma_distinct_trees_never_collide(t1, t2, s1, s2);
}

/// One identifier prefixes keys injectively: equal physical keys of one
/// tree carry equal suffixes.
pub proof fn lemma_prefixed_key_injective(tid: Seq<u8>, s1: Seq<u8>, s2: Seq<u8>)
    requires
        prefixed_key(tid, s1) == prefixed_key(tid, s2),
    ensures
        s1 == s2,
{
    assert(prefixed_key(tid, s1).len() == tid.len() + s1.len());
    assert(prefixed_key(tid, s2).len() == tid.len() + s2.len());
    assert(s1.len() == s2.len());
    assert forall|j: int| 0 <= j < s1.len() implies s1[j] == s2[j] by {
        assert(prefixed_key(tid, s1)[tid.len() + j] == s1[j]);
        assert(prefixed_key(tid, s2)[tid.len() + j] == s2[j]);
    }
    assert(s1 =~= s2);
}

/// The in-memory reference view of one tree's branches inside a shared
/// namespace: each position a tree algorithm may address, mapped to the
/// bytes stored for it.
pub open spec fn tree_branches(m: Map<Seq<u8>, Seq<u8>>, tid: Seq<u8>) -> Map<
    (u8, Seq<u8>),
    Seq<u8>,
> {
    Map::new(
        |p: (u8, Seq<u8>)|
            p.1.len() == DIGEST_BYTES && m.contains_key(
                prefixed_key(tid, spec_encode_branch_key(p.0, p.1)),
            ),
        |p: (u8, Seq<u8>)| m[prefixed_key(tid, spec_encode_branch_key(p.0, p.1))],
    )
}

/// The in-memory reference view of one tree's leaves: each leaf digest
/// mapped to the bytes stored for it.
pub open spec fn tree_leaves(m: Map<Seq<u8>, Seq<u8>>, tid: Seq<u8>) -> Map<Seq<u8>, Seq<u8>> {
    Map::new(
        |k: Seq<u8>| k.len() == DIGEST_BYTES && m.contains_key(prefixed_key(tid, k)),
        |k: Seq<u8>| m[prefixed_key(tid, k)],
    )
}

/// A branch write through the adapter is, on the reference view, exactly
/// the reference insert: the tree's branch view gains the one position
/// and its leaf view does not move. Together with the matching facts for
/// the other mutations and the adapters' read contracts, any update
/// sequence drives the persisted store and a pure in-memory store of the
/// same tree algorithm through the same observable states.
pub proof fn lemma_insert_branch_refines(
    m: Map<Seq<u8>, Seq<u8>>,
    tid: Seq<u8>,
    height: u8,
    node_key: Seq<u8>,
    value: Seq<u8>,
)
    requires
        node_key.len() == DIGEST_BYTES,
    ensures
        ({
            let m2 = m.insert(prefixed_key(tid, spec_encode_branch_key(height, node_key)), value);
            tree_branches(m2, tid) == tree_branches(m, tid).insert((height, node_key), value)
                && tree_leaves(m2, tid) == tree_leaves(m, tid)
        }),
{
    let pk = prefixed_key(tid, spec_encode_branch_key(height, node_key));
    let m2 = m.insert(pk, value);
    assert forall|p: (u8, Seq<u8>)| true implies #[trigger] prefixed_key(
        tid,
        spec_encode_branch_key(p.0, p.1),
    ) == pk && p.1.len() == DIGEST_BYTES <==> (p.0 == height && p.1 == node_key) by {
        if prefixed_key(tid, spec_encode_branch_key(p.0, p.1)) == pk && p.1.len() == DIGEST_BYTES {
            lemma_prefixed_key_injective(
                tid,
                spec_encode_branch_key(p.0, p.1),
                spec_encode_branch_key(height, node_key),
            );
            lemma_branch_key_encoding_injective(p.0, p.1, height, node_key);
        }
    }
    assert(tree_branches(m2, tid) =~= tree_branches(m, tid).insert((height, node_key), value));
    assert forall|k: Seq<u8>| true implies #[trigger] prefixed_key(tid, k) != pk || k.len()
        != DIGEST_BYTES by {
        if prefixed_key(tid, k) == pk {
            lemma_prefixed_key_injective(tid, k, spec_encode_branch_key(height, node_key));
        }
    }
    assert(tree_leaves(m2, tid) =~= tree_leaves(m, tid));
}

/// A branch removal through the adapter is the reference removal; the
/// leaf view does not move.
pub proof fn lemma_remove_branch_refines(
    m: Map<Seq<u8>, Seq<u8>>,
    tid: Seq<u8>,
    height: u8,
    node_key: Seq<u8>,
)
    requires
        node_key.len() == DIGEST_BYTES,
    ensures
        ({
            let m2 = m.remove(prefixed_key(tid, spec_encode_branch_key(height, node_key)));
            tree_branches(m2, tid) == tree_branches(m, tid).remove((height, node_key))
                && tree_leaves(m2, tid) == tree_leaves(m, tid)
        }),
{
    let pk = prefixed_key(tid, spec_encode_branch_key(height, node_key));
    let m2 = m.remove(pk);
    assert forall|p: (u8, Seq<u8>)| true implies #[trigger] prefixed_key(
        tid,
        spec_encode_branch_key(p.0, p.1),
    ) == pk && p.1.len() == DIGEST_BYTES <==> (p.0 == height && p.1 == node_key) by {
        if prefixed_key(tid, spec_encode_branch_key(p.0, p.1)) == pk && p.1.len() == DIGEST_BYTES {
            lemma_prefixed_key_injective(
                tid,
                spec_encode_branch_key(p.0, p.1),
                spec_encode_branch_key(height, node_key),
            );
            lemma_branch_key_encoding_injective(p.0, p.1, height, node_key);
        }
    }
    assert(tree_branches(m2, tid) =~= tree_branches(m, tid).remove((height, node_key)));
    assert forall|k: Seq<u8>| true implies #[trigger] prefixed_key(tid, k) != pk || k.len()
        != DIGEST_BYTES by {
        if prefixed_key(tid, k) == pk {
            lemma_prefixed_key_injective(tid, k, spec_encode_branch_key(height, node_key));
        }
    }
    assert(tree_leaves(m2, tid) =~= tree_leaves(m, tid));
}

/// A leaf write through the adapter is the reference insert; the branch
/// view does not move.
pub proof fn lemma_insert_leaf_refines(
    m: Map<Seq<u8>, Seq<u8>>,
    tid: Seq<u8>,
    key: Seq<u8>,
    value: Seq<u8>,
)
    requires
        key.len() == DIGEST_BYTES,
    ensures
        ({
            let m2 = m.insert(prefixed_key(tid, key), value);
            tree_leaves(m2, tid) == tree_leaves(m, tid).insert(key, value) && tree_branches(
                m2,
                tid,
            ) == tree_branches(m, tid)
        }),
{
    let pk = prefixed_key(tid, key);
    let m2 = m.insert(pk, value);
    assert forall|k: Seq<u8>| k.len() == DIGEST_BYTES implies (#[trigger] prefixed_key(tid, k)
        == pk <==> k == key) by {
        if prefixed_key(tid, k) == pk {
            lemma_prefixed_key_injective(tid, k, key);
        }
    }
    assert(tree_leaves(m2, tid) =~= tree_leaves(m, tid).insert(key, value));
    assert forall|p: (u8, Seq<u8>)| p.1.len() == DIGEST_BYTES implies #[trigger] prefixed_key(
        tid,
        spec_encode_branch_key(p.0, p.1),
    ) != pk by {
        if prefixed_key(tid, spec_encode_branch_key(p.0, p.1)) == pk {
            lemma_prefixed_key_injective(tid, spec_encode_branch_key(p.0, p.1), key);
        }
    }
    assert(tree_branches(m2, tid) =~= tree_branches(m, tid));
}

/// A leaf removal through the adapter is the reference removal; the
/// branch view does not move.
pub proof fn lemma_remove_leaf_refines(m: Map<Seq<u8>, Seq<u8>>, tid: Seq<u8>, key: Seq<u8>)
    requires
        key.len() == DIGEST_BYTES,
    ensures
        ({
            let m2 = m.remove(prefixed_key(tid, key));
            tree_leaves(m2, tid) == tree_leaves(m, tid).remove(key) && tree_branches(m2, tid)
                == tree_branches(m, tid)
        }),
{
    let pk = prefixed_key(tid, key);
    let m2 = m.remove(pk);
    assert forall|k: Seq<u8>| k.len() == DIGEST_BYTES implies (#[trigger] prefixed_key(tid, k)
        == pk <==> k == key) by {
        if prefixed_key(tid, k) == pk {
            lemma_prefixed_key_injective(tid, k, key);
        }
    }
    assert(tree_leaves(m2, tid) =~= tree_leaves(m, tid).remove(key));
    assert forall|p: (u8, Seq<u8>)| p.1.len() == DIGEST_BYTES implies #[trigger] prefixed_key(
        tid,
        spec_encode_branch_key(p.0, p.1),
    ) != pk by {
        if prefixed_key(tid, spec_encode_branch_key(p.0, p.1)) == pk {
            lemma_prefixed_key_injective(tid, spec_encode_branch_key(p.0, p.1), key);
        }
    }
    assert(tree_branches(m2, tid) =~= tree_branches(m, tid));
}

/// A mutation of one tree leaves the whole reference view of another,
/// prefix-free tree untouched, for writes and removals alike.
pub proof fn lemma_other_tree_views_unchanged(
    m: Map<Seq<u8>, Seq<u8>>,
    t1: Seq<u8>,
    suffix: Seq<u8>,
    value: Seq<u8>,
    t2: Seq<u8>,
)
    requires
        t1 != t2,
        !is_prefix_of(t1, t2),
        !is_prefix_of(t2, t1),
    ensures
        tree_branches(m.insert(prefixed_key(t1, suffix), value), t2) == tree_branches(m, t2),
        tree_leaves(m.insert(prefixed_key(t1, suffix), value), t2) == tree_leaves(m, t2),
        tree_branches(m.remove(prefixed_key(t1, suffix)), t2) == tree_branches(m, t2),
        tree_leaves(m.remove(prefixed_key(t1, suffix)), t2) == tree_leaves(m, t2),
{
    let pk = prefixed_key(t1, suffix);
    assert forall|s: Seq<u8>| true implies #[trigger] prefixed_key(t2, s) != pk by {
        lemma_distinct_trees_never_collide(t2, t1, s, suffix);
    }
    assert(tree_branches(m.insert(pk, value), t2) =~= tree_branches(m, t2));
    assert(tree_leaves(m.insert(pk, value), t2) =~= tree_leaves(m, t2));
    assert(tree_branches(m.remove(pk), t2) =~= tree_branches(m, t2));
    assert(tree_leaves(m.remove(pk), t2) =~= tree_leaves(m, t2));
}

} // verus!
