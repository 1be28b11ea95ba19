//! Fixed-width encoding of the tree's node keys and branch nodes.
//!
//! The byte layout is part of the persisted format and is bit-exact:
//! - a branch key is 1 height byte followed by the 32-byte node digest
//!   (33 bytes);
//! - a branch node is the 32-byte left child digest followed by the
//!   32-byte right child digest (64 bytes);
//! - a leaf key is the raw 32-byte digest, unmodified.

use vstd::prelude::*;

use crate::errors::StoreError;

verus! {

/// Number of bytes in a digest.
pub const DIGEST_BYTES: usize = 32;

/// Number of bytes in an encoded branch key: one height byte, then a digest.
pub const BRANCH_KEY_BYTES: usize = 33;

/// Number of bytes in an encoded branch node: two digests.
pub const BRANCH_NODE_BYTES: usize = 64;

/// A 256-bit digest, the key and node identifier of the tree.
#[derive(Debug, PartialEq, Eq)]
pub struct Digest {
    pub bytes: Vec<u8>,
}

impl View for Digest {
    type V = Seq<u8>;

    open spec fn view(&self) -> Seq<u8> {
        self.bytes@
    }
}

impl Digest {
    /// A digest is well formed when it holds exactly 32 bytes.
    pub open spec fn wf(&self) -> bool {
        self@.len() == DIGEST_BYTES
    }

    /// The all-zero digest, which names the empty tree.
    pub open spec fn spec_is_zero(&self) -> bool {
        forall|i: int| 0 <= i < self@.len() ==> self@[i] == 0u8
    }

    /// The all-zero digest.
    pub fn zero() -> (d: Digest)
        ensures
            d.wf(),
            d.spec_is_zero(),
    {
        let mut bytes: Vec<u8> = Vec::new();
        while bytes.len() < DIGEST_BYTES
            invariant
                bytes@.len() <= 32,
                forall|i: int| 0 <= i < bytes@.len() ==> bytes@[i] == 0u8,
            decreases 32 - bytes@.len(),
        {
            bytes.push(0u8);
        }
        Digest { bytes }
    }

    /// Wraps raw bytes as a digest; anything but 32 bytes is refused.
    pub fn from_bytes(bytes: Vec<u8>) -> (r: Option<Digest>)
        ensures
            match r {
                Some(d) => d@ == bytes@ && d.wf(),
                None => bytes@.len() != DIGEST_BYTES,
            },
    {
        if bytes.len() == DIGEST_BYTES {
            Some(Digest { bytes })
        } else {
            None
        }
    }

    /// Whether every byte of the digest is zero.
    pub fn is_zero(&self) -> (r: bool)
        ensures
            r <==> self.spec_is_zero(),
    {
        let mut i: usize = 0;
        while i < self.bytes.len()
            invariant
                i <= self@.len(),
                forall|j: int| 0 <= j < i ==> self@[j] == 0u8,
            decreases self@.len() - i,
        {
            if self.bytes[i] != 0u8 {
                return false;
            }
            i += 1;
        }
        true
    }

    /// A fresh copy of the digest's bytes.
    pub fn to_vec(&self) -> (r: Vec<u8>)
        ensures
            r@ == self@,
    {
        let mut r: Vec<u8> = Vec::new();
        append_bytes(&mut r, &self.bytes);
        r
    }
}

/// Identifies an internal node's position: its height and its node digest.
#[derive(Debug, PartialEq, Eq)]
pub struct BranchKey {
    pub height: u8,
    pub node_key: Digest,
}

impl BranchKey {
    pub open spec fn wf(&self) -> bool {
        self.node_key.wf()
    }

    pub fn new(height: u8, node_key: Digest) -> (r: BranchKey)
        ensures
            r.height == height,
            r.node_key@ == node_key@,
            node_key.wf() ==> r.wf(),
    {
        BranchKey { height, node_key }
    }
}

/// An internal node: the digests of its two children.
#[derive(Debug, PartialEq, Eq)]
pub struct BranchNode {
    pub left: Digest,
    pub right: Digest,
}

impl BranchNode {
    pub open spec fn wf(&self) -> bool {
        self.left.wf() && self.right.wf()
    }

    pub fn new(left: Digest, right: Digest) -> (r: BranchNode)
        ensures
            r.left@ == left@,
            r.right@ == right@,
            left.wf() && right.wf() ==> r.wf(),
    {
        BranchNode { left, right }
    }
}

/// The encoded form of a branch key: the height byte, then the node digest.
pub open spec fn spec_encode_branch_key(height: u8, node_key: Seq<u8>) -> Seq<u8> {
    seq![height] + node_key
}

/// The encoded form of a branch node: left digest, then right digest.
pub open spec fn spec_encode_branch_node(left: Seq<u8>, right: Seq<u8>) -> Seq<u8> {
    left + right
}

/// Decoding of a branch key: defined exactly on 33-byte strings.
pub open spec fn spec_decode_branch_key(bytes: Seq<u8>) -> Option<(u8, Seq<u8>)> {
    if bytes.len() == BRANCH_KEY_BYTES {
        Some((bytes[0], bytes.subrange(1, BRANCH_KEY_BYTES as int)))
    } else {
        None
    }
}

/// Decoding of a branch node: defined exactly on 64-byte strings,
/// split at offset 32.
pub open spec fn spec_decode_branch_node(bytes: Seq<u8>) -> Option<(Seq<u8>, Seq<u8>)> {
    if bytes.len() == BRANCH_NODE_BYTES {
        Some(
            (
                bytes.subrange(0, DIGEST_BYTES as int),
                bytes.subrange(DIGEST_BYTES as int, BRANCH_NODE_BYTES as int),
            ),
        )
    } else {
        None
    }
}

/// Appends all of `src` to `dst`.
pub fn append_bytes(dst: &mut Vec<u8>, src: &Vec<u8>)
    ensures
        final(dst)@ == old(dst)@ + src@,
{
    let mut i: usize = 0;
    while i < src.len()
        invariant
            i <= src@.len(),
            dst@ == old(dst)@ + src@.take(i as int),
        decreases src@.len() - i,
    {
        dst.push(src[i]);
        i += 1;
        proof {
            assert(dst@ =~= old(dst)@ + src@.take(i as int));
        }
    }
    proof {
        assert(dst@ =~= old(dst)@ + src@);
    }
}

/// Encodes a branch key into its 33-byte form.
pub fn encode_branch_key(key: &BranchKey) -> (r: Vec<u8>)
    requires
        key.wf(),
    ensures
        r@ == spec_encode_branch_key(key.height, key.node_key@),
        r@.len() == BRANCH_KEY_BYTES,
{
    let mut r: Vec<u8> = Vec::new();
    r.push(key.height);
    append_bytes(&mut r, &key.node_key.bytes);
    proof {
        assert(r@ =~= spec_encode_branch_key(key.height, key.node_key@));
    }
    r
}

/// Encodes a branch node into its 64-byte form.
pub fn encode_branch_node(node: &BranchNode) -> (r: Vec<u8>)
    requires
        node.wf(),
    ensures
        r@ == spec_encode_branch_node(node.left@, node.right@),
        r@.len() == BRANCH_NODE_BYTES,
{
    let mut r: Vec<u8> = Vec::new();
    append_bytes(&mut r, &node.left.bytes);
    append_bytes(&mut r, &node.right.bytes);
    r
}

/// Copies `src[lo..hi]` into a fresh vector.
pub(crate) fn copy_range(src: &Vec<u8>, lo: usize, hi: usize) -> (r: Vec<u8>)
    requires
        lo <= hi <= src@.len(),
    ensures
        r@ == src@.subrange(lo as int, hi as int),
{
    let mut r: Vec<u8> = Vec::new();
    let mut i: usize = lo;
    while i < hi
        invariant
            lo <= i <= hi <= src@.len(),
            r@ == src@.subrange(lo as int, i as int),
        decreases hi - i,
    {
        r.push(src[i]);
        i += 1;
        proof {
            assert(r@ =~= src@.subrange(lo as int, i as int));
        }
    }
    r
}

/// Decodes a 33-byte string into a branch key; any other length is an
/// encoding error.
pub fn decode_branch_key(bytes: &Vec<u8>) -> (r: Result<BranchKey, StoreError>)
    ensures
        match r {
            Ok(key) => key.wf() && spec_decode_branch_key(bytes@) == Some(
                (key.height, key.node_key@),
            ),
            Err(e) => e == StoreError::Encoding && spec_decode_branch_key(bytes@) is None,
        },
{
    if bytes.len() != BRANCH_KEY_BYTES {
        return Err(StoreError::Encoding);
    }
    let height = bytes[0];
    let node_bytes = copy_range(bytes, 1, BRANCH_KEY_BYTES);
    Ok(BranchKey { height, node_key: Digest { bytes: node_bytes } })
}

/// Decodes a 64-byte string into a branch node; any other length is an
/// encoding error.
pub fn decode_branch_node(bytes: &Vec<u8>) -> (r: Result<BranchNode, StoreError>)
    ensures
        match r {
            Ok(node) => node.wf() && spec_decode_branch_node(bytes@) == Some(
                (node.left@, node.right@),
            ),
            Err(e) => e == StoreError::Encoding && spec_decode_branch_node(bytes@) is None,
        },
{
    if bytes.len() != BRANCH_NODE_BYTES {
        return Err(StoreError::Encoding);
    }
    let left_bytes = copy_range(bytes, 0, DIGEST_BYTES);
    let right_bytes = copy_range(bytes, DIGEST_BYTES, BRANCH_NODE_BYTES);
    Ok(
        BranchNode {
            left: Digest { bytes: left_bytes },
            right: Digest { bytes: right_bytes },
        },
    )
}

/// Decoding undoes encoding on every well-formed branch key: the codec
/// loses nothing and is therefore injective.
pub proof fn lemma_branch_key_round_trip(height: u8, node_key: Seq<u8>)
    requires
        node_key.len() == DIGEST_BYTES,
    ensures
        spec_decode_branch_key(spec_encode_branch_key(height, node_key)) == Some(
            (height, node_key),
        ),
{
    let enc = spec_encode_branch_key(height, node_key);
    assert(enc.subrange(1, BRANCH_KEY_BYTES as int) =~= node_key);
}

/// Decoding undoes encoding on every well-formed branch node: the codec
/// loses nothing and is therefore injective.
pub proof fn lemma_branch_node_round_trip(left: Seq<u8>, right: Seq<u8>)
    requires
        left.len() == DIGEST_BYTES,
        right.len() == DIGEST_BYTES,
    ensures
        spec_decode_branch_node(spec_encode_branch_node(left, right)) == Some((left, right)),
{
    let enc = spec_encode_branch_node(left, right);
    assert(enc.subrange(0, DIGEST_BYTES as int) =~= left);
    assert(enc.subrange(DIGEST_BYTES as int, BRANCH_NODE_BYTES as int) =~= right);
}

/// Branch-key encoding is injective: no two distinct positions encode
/// to the same bytes.
pub proof fn lemma_branch_key_encoding_injective(h1: u8, k1: Seq<u8>, h2: u8, k2: Seq<u8>)
    requires
        k1.len() == DIGEST_BYTES,
        k2.len() == DIGEST_BYTES,
        spec_encode_branch_key(h1, k1) == spec_encode_branch_key(h2, k2),
    ensures
        h1 == h2,
        k1 == k2,
{
    lemma_branch_key_round_trip(h1, k1);
    lemma_branch_key_round_trip(h2, k2);
}

/// A branch node persisted under any physical key reads back as itself:
/// after the encoded node is stored, looking the key up and decoding
/// yields exactly the node. The persisted store thus answers reads as
/// the in-memory map it models would.
pub proof fn lemma_branch_persist_round_trip(
    m: Map<Seq<u8>, Seq<u8>>,
    pk: Seq<u8>,
    left: Seq<u8>,
    right: Seq<u8>,
)
    requires
        left.len() == DIGEST_BYTES,
        right.len() == DIGEST_BYTES,
    ensures
        ({
            let m2 = m.insert(pk, spec_encode_branch_node(left, right));
            m2.contains_key(pk) && spec_decode_branch_node(m2[pk]) == Some((left, right))
        }),
{
    lemma_branch_node_round_trip(left, right);
}

/// An encoded branch key is never a leaf key: the two lengths differ,
/// so the two node kinds can share one namespace.
pub proof fn lemma_branch_key_is_not_leaf_key(height: u8, node_key: Seq<u8>, leaf_key: Seq<u8>)
    requires
        node_key.len() == DIGEST_BYTES,
        leaf_key.len() == DIGEST_BYTES,
    ensures
        spec_encode_branch_key(height, node_key) != leaf_key,
{
    assert(spec_encode_branch_key(height, node_key).len() == BRANCH_KEY_BYTES);
}

} // verus!
