//! The root registry: one reserved key per tree holding the tree's last
//! committed root digest.
//!
//! The registry shares the content namespace, so its keys must never
//! collide with any tree's content keys. Every registry key starts with
//! the reserved marker byte, and no valid tree identifier does — the
//! disjointness is proved below. A caller recovers a tree's root on open
//! (an absent entry means the all-zero root, the empty tree) and writes
//! the new root inside the same transaction as the node mutations, so a
//! committed root never refers to half-written nodes.

use vstd::prelude::*;

use crate::codec::append_bytes;
use crate::codec::Digest;
use crate::codec::DIGEST_BYTES;
use crate::default_store::CONTENT_NAMESPACE;
use crate::errors::StoreError;
use crate::handle::write_result;
use crate::handle::ReadHandle;
use crate::handle::WriteHandle;
use crate::multi_tree::prefixed_key;
use crate::multi_tree::valid_tree_id;
use crate::multi_tree::ROOT_REGISTRY_MARKER;

verus! {

/// The registry key of one tree: the reserved marker byte, then the
/// tree's identifier.
pub open spec fn spec_registry_key(id: Seq<u8>) -> Seq<u8> {
    seq![ROOT_REGISTRY_MARKER] + id
}

/// Builds the registry key of one tree.
pub fn registry_key(id: &Vec<u8>) -> (r: Vec<u8>)
    ensures
        r@ == spec_registry_key(id@),
{
    let mut r: Vec<u8> = Vec::new();
    r.push(ROOT_REGISTRY_MARKER);
    append_bytes(&mut r, id);
    proof {
        assert(r@ =~= spec_registry_key(id@));
    }
    r
}

/// Distinct trees have distinct registry entries.
pub proof fn lemma_registry_key_injective(id1: Seq<u8>, id2: Seq<u8>)
    requires
        spec_registry_key(id1) == spec_registry_key(id2),
    ensures
        id1 == id2,
{
    assert(id1.len() == id2.len()) by {
        assert(spec_registry_key(id1).len() == 1 + id1.len());
        assert(spec_registry_key(id2).len() == 1 + id2.len());
    }
    assert forall|j: int| 0 <= j < id1.len() implies id1[j] == id2[j] by {
        assert(spec_registry_key(id1)[j + 1] == id1[j]);
        assert(spec_registry_key(id2)[j + 1] == id2[j]);
    }
    assert(id1 =~= id2);
}

/// The registry key space is disjoint from every valid tree's content
/// key range: a registry key starts with the marker byte and a content
/// key starts with its tree's identifier, which never does.
pub proof fn lemma_registry_key_not_content_key(id1: Seq<u8>, id2: Seq<u8>, suffix: Seq<u8>)
    requires
        valid_tree_id(id2),
    ensures
        spec_registry_key(id1) != prefixed_key(id2, suffix),
{
    assert(spec_registry_key(id1)[0] == ROOT_REGISTRY_MARKER);
    assert(prefixed_key(id2, suffix)[0] == id2[0]);
}

/// Records `root` as the tree's committed root. Called inside the same
/// transaction as the node mutations it summarizes.
pub fn save_root<H: WriteHandle>(h: &mut H, tree_id: &Vec<u8>, root: &Digest) -> (r: Result<
    (),
    StoreError,
>)
    requires
        old(h).inv(),
        valid_tree_id(tree_id@),
        root.wf(),
    ensures
        final(h).inv(),
        write_result(
            *old(h),
            *final(h),
            CONTENT_NAMESPACE as int,
            spec_registry_key(tree_id@),
            root@,
            r,
        ),
{
    let rk = registry_key(tree_id);
    h.put(CONTENT_NAMESPACE, &rk, &root.bytes)
}

/// Recovers the tree's last committed root: the stored 32-byte digest,
/// or the all-zero root when no entry exists. Stored bytes of any other
/// length are a corrupt entry and an encoding error.
pub fn load_root<H: ReadHandle>(h: &H, tree_id: &Vec<u8>) -> (r: Result<Digest, StoreError>)
    requires
        h.inv(),
        valid_tree_id(tree_id@),
    ensures
        ({
            let m = h.contents(CONTENT_NAMESPACE as int);
            let rk = spec_registry_key(tree_id@);
            match r {
                Ok(d) => d.wf() && if m.contains_key(rk) {
                    m[rk].len() == DIGEST_BYTES && d@ == m[rk]
                } else {
                    d.spec_is_zero()
                },
                Err(e) => e == StoreError::StorageIo || (e == StoreError::Encoding
                    && m.contains_key(rk) && m[rk].len() != DIGEST_BYTES),
            }
        }),
{
    let rk = registry_key(tree_id);
    match h.get(CONTENT_NAMESPACE, &rk) {
        Ok(Some(bytes)) => match Digest::from_bytes(bytes) {
            Some(d) => Ok(d),
            None => Err(StoreError::Encoding),
        },
        Ok(None) => Ok(Digest::zero()),
        Err(e) => Err(e),
    }
}

} // verus!
