//! Store adapters over a single shared namespace.
//!
//! Branch nodes and leaves live in one namespace and are told apart by
//! key length alone: an encoded branch key is 33 bytes, a leaf key 32.
//! [`DefaultStore`] serves one tree; [`DefaultStoreMultiTree`] prepends
//! a tree identifier to every key so that several trees share the
//! namespace.
//!
//! Branch values come in two forms: typed, through this crate's 64-byte
//! branch-node codec, and raw, for a collaborator that encodes its nodes
//! itself. Leaf values are raw bytes throughout; the caller's value type
//! decodes them.

use vstd::prelude::*;

use crate::codec::decode_branch_node;
use crate::codec::encode_branch_key;
use crate::codec::encode_branch_node;
use crate::codec::spec_encode_branch_key;
use crate::codec::spec_encode_branch_node;
use crate::codec::BranchKey;
use crate::codec::BranchNode;
use crate::codec::Digest;
use crate::errors::StoreError;
use crate::handle::branch_read_result;
use crate::handle::delete_result;
use crate::handle::raw_read_result;
use crate::handle::write_result;
use crate::handle::ReadHandle;
use crate::handle::WriteHandle;
use crate::multi_tree::make_prefixed_key;
use crate::multi_tree::prefixed_key;
use crate::multi_tree::valid_tree_id;

verus! {

/// The one namespace this layout uses.
pub const CONTENT_NAMESPACE: usize = 0;

/// A store adapter for one tree in one shared namespace.
pub struct DefaultStore {}

impl DefaultStore {
    pub fn new() -> (r: DefaultStore) {
        DefaultStore {  }
    }

    /// Reads and decodes the branch node stored under `key`.
    pub fn get_branch<H: ReadHandle>(&self, h: &H, key: &BranchKey) -> (r: Result<
        Option<BranchNode>,
        StoreError,
    >)
        requires
            h.inv(),
            key.wf(),
        ensures
            branch_read_result(
                h.contents(CONTENT_NAMESPACE as int),
                spec_encode_branch_key(key.height, key.node_key@),
                r,
            ),
    {
        let ek = encode_branch_key(key);
        match h.get(CONTENT_NAMESPACE, &ek) {
            Ok(Some(bytes)) => match decode_branch_node(&bytes) {
                Ok(node) => Ok(Some(node)),
                Err(e) => Err(e),
            },
            Ok(None) => Ok(None),
            Err(e) => Err(e),
        }
    }

    /// Reads the raw bytes stored under the encoded branch key.
    pub fn get_branch_raw<H: ReadHandle>(&self, h: &H, key: &BranchKey) -> (r: Result<
        Option<Vec<u8>>,
        StoreError,
    >)
        requires
            h.inv(),
            key.wf(),
        ensures
            raw_read_result(
                h.contents(CONTENT_NAMESPACE as int),
                spec_encode_branch_key(key.height, key.node_key@),
                r,
            ),
    {
        let ek = encode_branch_key(key);
        h.get(CONTENT_NAMESPACE, &ek)
    }

    /// Reads the raw bytes stored under the leaf key.
    pub fn get_leaf<H: ReadHandle>(&self, h: &H, key: &Digest) -> (r: Result<
        Option<Vec<u8>>,
        StoreError,
    >)
        requires
            h.inv(),
            key.wf(),
        ensures
            raw_read_result(h.contents(CONTENT_NAMESPACE as int), key@, r),
    {
        h.get(CONTENT_NAMESPACE, &key.bytes)
    }

    /// Stores a branch node, encoded, under its encoded key; an existing
    /// node under the same key is overwritten.
    pub fn insert_branch<H: WriteHandle>(
        &self,
        h: &mut H,
        key: &BranchKey,
        node: &BranchNode,
    ) -> (r: Result<(), StoreError>)
        requires
            old(h).inv(),
            key.wf(),
            node.wf(),
        ensures
            final(h).inv(),
            write_result(
                *old(h),
                *final(h),
                CONTENT_NAMESPACE as int,
                spec_encode_branch_key(key.height, key.node_key@),
                spec_encode_branch_node(node.left@, node.right@),
                r,
            ),
    {
        let ek = encode_branch_key(key);
        let en = encode_branch_node(node);
        h.put(CONTENT_NAMESPACE, &ek, &en)
    }

    /// Stores caller-encoded branch bytes under the encoded branch key.
    pub fn insert_branch_raw<H: WriteHandle>(
        &self,
        h: &mut H,
        key: &BranchKey,
        value: &Vec<u8>,
    ) -> (r: Result<(), StoreError>)
        requires
            old(h).inv(),
            key.wf(),
        ensures
            final(h).inv(),
            write_result(
                *old(h),
                *final(h),
                CONTENT_NAMESPACE as int,
                spec_encode_branch_key(key.height, key.node_key@),
                value@,
                r,
            ),
    {
        let ek = encode_branch_key(key);
        h.put(CONTENT_NAMESPACE, &ek, value)
    }

    /// Stores leaf bytes under the raw leaf key.
    pub fn insert_leaf<H: WriteHandle>(&self, h: &mut H, key: &Digest, value: &Vec<u8>) -> (r:
        Result<(), StoreError>)
        requires
            old(h).inv(),
            key.wf(),
        ensures
            final(h).inv(),
            write_result(*old(h), *final(h), CONTENT_NAMESPACE as int, key@, value@, r),
    {
        h.put(CONTENT_NAMESPACE, &key.bytes, value)
    }

    /// Deletes the branch node under `key`; an absent key is a no-op.
    pub fn remove_branch<H: WriteHandle>(&self, h: &mut H, key: &BranchKey) -> (r: Result<
        (),
        StoreError,
    >)
        requires
            old(h).inv(),
            key.wf(),
        ensures
            final(h).inv(),
            delete_result(
                *old(h),
                *final(h),
                CONTENT_NAMESPACE as int,
                spec_encode_branch_key(key.height, key.node_key@),
                r,
            ),
    {
        let ek = encode_branch_key(key);
        h.delete(CONTENT_NAMESPACE, &ek)
    }

    /// Deletes the leaf under `key`; an absent key is a no-op.
    pub fn remove_leaf<H: WriteHandle>(&self, h: &mut H, key: &Digest) -> (r: Result<
        (),
        StoreError,
    >)
        requires
            old(h).inv(),
            key.wf(),
        ensures
            final(h).inv(),
            delete_result(*old(h), *final(h), CONTENT_NAMESPACE as int, key@, r),
    {
        h.delete(CONTENT_NAMESPACE, &key.bytes)
    }
}

/// A store adapter for one of several trees sharing one namespace: every
/// key carries the tree's identifier as its first bytes.
pub struct DefaultStoreMultiTree {
    /// The tree's identifier, prepended verbatim to every key.
    pub prefix: Vec<u8>,
}

impl DefaultStoreMultiTree {
    /// The adapter is well formed when its identifier is valid.
    pub open spec fn wf(&self) -> bool {
        valid_tree_id(self.prefix@)
    }

    pub fn new(prefix: Vec<u8>) -> (r: DefaultStoreMultiTree)
        requires
            valid_tree_id(prefix@),
        ensures
            r.wf(),
            r.prefix@ == prefix@,
    {
        DefaultStoreMultiTree { prefix }
    }

    /// Reads and decodes this tree's branch node stored under `key`.
    pub fn get_branch<H: ReadHandle>(&self, h: &H, key: &BranchKey) -> (r: Result<
        Option<BranchNode>,
        StoreError,
    >)
        requires
            h.inv(),
            self.wf(),
            key.wf(),
        ensures
            branch_read_result(
                h.contents(CONTENT_NAMESPACE as int),
                prefixed_key(self.prefix@, spec_encode_branch_key(key.height, key.node_key@)),
                r,
            ),
    {
        let ek = encode_branch_key(key);
        let pk = make_prefixed_key(&self.prefix, &ek);
        match h.get(CONTENT_NAMESPACE, &pk) {
            Ok(Some(bytes)) => match decode_branch_node(&bytes) {
                Ok(node) => Ok(Some(node)),
                Err(e) => Err(e),
            },
            Ok(None) => Ok(None),
            Err(e) => Err(e),
        }
    }

    /// Reads the raw bytes stored under this tree's encoded branch key.
    pub fn get_branch_raw<H: ReadHandle>(&self, h: &H, key: &BranchKey) -> (r: Result<
        Option<Vec<u8>>,
        StoreError,
    >)
        requires
            h.inv(),
            self.wf(),
            key.wf(),
        ensures
            raw_read_result(
                h.contents(CONTENT_NAMESPACE as int),
                prefixed_key(self.prefix@, spec_encode_branch_key(key.height, key.node_key@)),
                r,
            ),
    {
        let ek = encode_branch_key(key);
        let pk = make_prefixed_key(&self.prefix, &ek);
        h.get(CONTENT_NAMESPACE, &pk)
    }

    /// Reads the raw bytes stored under this tree's leaf key.
    pub fn get_leaf<H: ReadHandle>(&self, h: &H, key: &Digest) -> (r: Result<
        Option<Vec<u8>>,
        StoreError,
    >)
        requires
            h.inv(),
            self.wf(),
            key.wf(),
        ensures
            raw_read_result(
                h.contents(CONTENT_NAMESPACE as int),
                prefixed_key(self.prefix@, key@),
                r,
            ),
    {
        let pk = make_prefixed_key(&self.prefix, &key.bytes);
        h.get(CONTENT_NAMESPACE, &pk)
    }

    /// Stores this tree's branch node, encoded, under its prefixed key.
    pub fn insert_branch<H: WriteHandle>(
        &self,
        h: &mut H,
        key: &BranchKey,
        node: &BranchNode,
    ) -> (r: Result<(), StoreError>)
        requires
            old(h).inv(),
            self.wf(),
            key.wf(),
            node.wf(),
        ensures
            final(h).inv(),
            write_result(
                *old(h),
                *final(h),
                CONTENT_NAMESPACE as int,
                prefixed_key(self.prefix@, spec_encode_branch_key(key.height, key.node_key@)),
                spec_encode_branch_node(node.left@, node.right@),
                r,
            ),
    {
        let ek = encode_branch_key(key);
        let pk = make_prefixed_key(&self.prefix, &ek);
        let en = encode_branch_node(node);
        h.put(CONTENT_NAMESPACE, &pk, &en)
    }

    /// Stores caller-encoded branch bytes under this tree's prefixed key.
    pub fn insert_branch_raw<H: WriteHandle>(
        &self,
        h: &mut H,
        key: &BranchKey,
        value: &Vec<u8>,
    ) -> (r: Result<(), StoreError>)
        requires
            old(h).inv(),
            self.wf(),
            key.wf(),
        ensures
            final(h).inv(),
            write_result(
                *old(h),
                *final(h),
                CONTENT_NAMESPACE as int,
                prefixed_key(self.prefix@, spec_encode_branch_key(key.height, key.node_key@)),
                value@,
                r,
            ),
    {
        let ek = encode_branch_key(key);
        let pk = make_prefixed_key(&self.prefix, &ek);
        h.put(CONTENT_NAMESPACE, &pk, value)
    }

    /// Stores this tree's leaf bytes under its prefixed leaf key.
    pub fn insert_leaf<H: WriteHandle>(&self, h: &mut H, key: &Digest, value: &Vec<u8>) -> (r:
        Result<(), StoreError>)
        requires
            old(h).inv(),
            self.wf(),
            key.wf(),
        ensures
            final(h).inv(),
            write_result(
                *old(h),
                *final(h),
                CONTENT_NAMESPACE as int,
                prefixed_key(self.prefix@, key@),
                value@,
                r,
            ),
    {
        let pk = make_prefixed_key(&self.prefix, &key.bytes);
        h.put(CONTENT_NAMESPACE, &pk, value)
    }

    /// Deletes this tree's branch node under `key`; absent is a no-op.
    pub fn remove_branch<H: WriteHandle>(&self, h: &mut H, key: &BranchKey) -> (r: Result<
        (),
        StoreError,
    >)
        requires
            old(h).inv(),
            self.wf(),
            key.wf(),
        ensures
            final(h).inv(),
            delete_result(
                *old(h),
                *final(h),
                CONTENT_NAMESPACE as int,
                prefixed_key(self.prefix@, spec_encode_branch_key(key.height, key.node_key@)),
                r,
            ),
    {
        let ek = encode_branch_key(key);
        let pk = make_prefixed_key(&self.prefix, &ek);
        h.delete(CONTENT_NAMESPACE, &pk)
    }

    /// Deletes this tree's leaf under `key`; absent is a no-op.
    pub fn remove_leaf<H: WriteHandle>(&self, h: &mut H, key: &Digest) -> (r: Result<
        (),
        StoreError,
    >)
        requires
            old(h).inv(),
            self.wf(),
            key.wf(),
        ensures
            final(h).inv(),
            delete_result(
                *old(h),
                *final(h),
                CONTENT_NAMESPACE as int,
                prefixed_key(self.prefix@, key@),
                r,
            ),
    {
        let pk = make_prefixed_key(&self.prefix, &key.bytes);
        h.delete(CONTENT_NAMESPACE, &pk)
    }
}

} // verus!
