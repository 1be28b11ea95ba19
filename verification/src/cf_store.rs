//! Store adapters over two independently addressed namespaces.
//!
//! One namespace holds the branch nodes, the other the leaves — the
//! "column family" layout. With the two node kinds separated there is no
//! need to tell them apart by key length, but the keys and values are
//! byte-for-byte the same as in the shared-namespace layout, so both
//! layouts read and write identically from a caller's point of view.
//!
//! The two namespaces are named by index; the engine binding maps each
//! index to one of its column families. Leaf writes go to the leaf
//! namespace and branch writes to the branch namespace, and the
//! contracts pin that routing down.

use vstd::prelude::*;

use crate::codec::decode_branch_node;
use crate::codec::encode_branch_key;
use crate::codec::encode_branch_node;
use crate::codec::spec_encode_branch_key;
use crate::codec::spec_encode_branch_node;
use crate::codec::BranchKey;
use crate::codec::BranchNode;
use crate::codec::Digest;
use crate::errors::StoreError;
use crate::handle::branch_read_result;
use crate::handle::delete_result;
use crate::handle::raw_read_result;
use crate::handle::write_result;
use crate::handle::ReadHandle;
use crate::handle::WriteHandle;
use crate::multi_tree::make_prefixed_key;
use crate::multi_tree::prefixed_key;
use crate::multi_tree::valid_tree_id;

verus! {

/// A store adapter for one tree over two namespaces, one per node kind.
pub struct ColumnFamilyStore {
    /// The namespace holding the branch nodes.
    pub branch_ns: usize,
    /// The namespace holding the leaves.
    pub leaf_ns: usize,
}

impl ColumnFamilyStore {
    pub fn new(branch_ns: usize, leaf_ns: usize) -> (r: ColumnFamilyStore)
        ensures
            r.branch_ns == branch_ns,
            r.leaf_ns == leaf_ns,
    {
        ColumnFamilyStore { branch_ns, leaf_ns }
    }

    /// Reads and decodes the branch node stored under `key`.
    pub fn get_branch<H: ReadHandle>(&self, h: &H, key: &BranchKey) -> (r: Result<
        Option<BranchNode>,
        StoreError,
    >)
        requires
            h.inv(),
            key.wf(),
        ensures
            branch_read_result(
                h.contents(self.branch_ns as int),
                spec_encode_branch_key(key.height, key.node_key@),
                r,
            ),
    {
        let ek = encode_branch_key(key);
        match h.get(self.branch_ns, &ek) {
            Ok(Some(bytes)) => match decode_branch_node(&bytes) {
                Ok(node) => Ok(Some(node)),
                Err(e) => Err(e),
            },
            Ok(None) => Ok(None),
            Err(e) => Err(e),
        }
    }

    /// Reads the raw bytes stored under the encoded branch key.
    pub fn get_branch_raw<H: ReadHandle>(&self, h: &H, key: &BranchKey) -> (r: Result<
        Option<Vec<u8>>,
        StoreError,
    >)
        requires
            h.inv(),
            key.wf(),
        ensures
            raw_read_result(
                h.contents(self.branch_ns as int),
                spec_encode_branch_key(key.height, key.node_key@),
                r,
            ),
    {
        let ek = encode_branch_key(key);
        h.get(self.branch_ns, &ek)
    }

    /// Reads the raw bytes stored under the leaf key, from the leaf
    /// namespace.
    pub fn get_leaf<H: ReadHandle>(&self, h: &H, key: &Digest) -> (r: Result<
        Option<Vec<u8>>,
        StoreError,
    >)
        requires
            h.inv(),
            key.wf(),
        ensures
            raw_read_result(h.contents(self.leaf_ns as int), key@, r),
    {
        h.get(self.leaf_ns, &key.bytes)
    }

    /// Stores a branch node, encoded, in the branch namespace.
    pub fn insert_branch<H: WriteHandle>(
        &self,
        h: &mut H,
        key: &BranchKey,
        node: &BranchNode,
    ) -> (r: Result<(), StoreError>)
        requires
            old(h).inv(),
            key.wf(),
            node.wf(),
        ensures
            final(h).inv(),
            write_result(
                *old(h),
                *final(h),
                self.branch_ns as int,
                spec_encode_branch_key(key.height, key.node_key@),
                spec_encode_branch_node(node.left@, node.right@),
                r,
            ),
    {
        let ek = encode_branch_key(key);
        let en = encode_branch_node(node);
        h.put(self.branch_ns, &ek, &en)
    }

    /// Stores caller-encoded branch bytes in the branch namespace.
    pub fn insert_branch_raw<H: WriteHandle>(
        &self,
        h: &mut H,
        key: &BranchKey,
        value: &Vec<u8>,
    ) -> (r: Result<(), StoreError>)
        requires
            old(h).inv(),
            key.wf(),
        ensures
            final(h).inv(),
            write_result(
                *old(h),
                *final(h),
                self.branch_ns as int,
                spec_encode_branch_key(key.height, key.node_key@),
                value@,
                r,
            ),
    {
        let ek = encode_branch_key(key);
        h.put(self.branch_ns, &ek, value)
    }

    /// Stores leaf bytes under the raw leaf key, in the leaf namespace.
    pub fn insert_leaf<H: WriteHandle>(&self, h: &mut H, key: &Digest, value: &Vec<u8>) -> (r:
        Result<(), StoreError>)
        requires
            old(h).inv(),
            key.wf(),
        ensures
            final(h).inv(),
            write_result(*old(h), *final(h), self.leaf_ns as int, key@, value@, r),
    {
        h.put(self.leaf_ns, &key.bytes, value)
    }

    /// Deletes the branch node under `key`; an absent key is a no-op.
    pub fn remove_branch<H: WriteHandle>(&self, h: &mut H, key: &BranchKey) -> (r: Result<
        (),
        StoreError,
    >)
        requires
            old(h).inv(),
            key.wf(),
        ensures
            final(h).inv(),
            delete_result(
                *old(h),
                *final(h),
                self.branch_ns as int,
                spec_encode_branch_key(key.height, key.node_key@),
                r,
            ),
    {
        let ek = encode_branch_key(key);
        h.delete(self.branch_ns, &ek)
    }

    /// Deletes the leaf under `key`; an absent key is a no-op.
    pub fn remove_leaf<H: WriteHandle>(&self, h: &mut H, key: &Digest) -> (r: Result<
        (),
        StoreError,
    >)
        requires
            old(h).inv(),
            key.wf(),
        ensures
            final(h).inv(),
            delete_result(*old(h), *final(h), self.leaf_ns as int, key@, r),
    {
        h.delete(self.leaf_ns, &key.bytes)
    }
}

/// A store adapter for one of several trees over two namespaces: every
/// key carries the tree's identifier as its first bytes.
pub struct ColumnFamilyStoreMultiTree {
    /// The tree's identifier, prepended verbatim to every key.
    pub prefix: Vec<u8>,
    /// The namespace holding the branch nodes.
    pub branch_ns: usize,
    /// The namespace holding the leaves.
    pub leaf_ns: usize,
}

impl ColumnFamilyStoreMultiTree {
    /// The adapter is well formed when its identifier is valid.
    pub open spec fn wf(&self) -> bool {
        valid_tree_id(self.prefix@)
    }

    pub fn new(prefix: Vec<u8>, branch_ns: usize, leaf_ns: usize) -> (r: ColumnFamilyStoreMultiTree)
        requires
            valid_tree_id(prefix@),
        ensures
            r.wf(),
            r.prefix@ == prefix@,
            r.branch_ns == branch_ns,
            r.leaf_ns == leaf_ns,
    {
        ColumnFamilyStoreMultiTree { prefix, branch_ns, leaf_ns }
    }

    /// Reads and decodes this tree's branch node stored under `key`.
    pub fn get_branch<H: ReadHandle>(&self, h: &H, key: &BranchKey) -> (r: Result<
        Option<BranchNode>,
        StoreError,
    >)
        requires
            h.inv(),
            self.wf(),
            key.wf(),
        ensures
            branch_read_result(
                h.contents(self.branch_ns as int),
                prefixed_key(self.prefix@, spec_encode_branch_key(key.height, key.node_key@)),
                r,
            ),
    {
        let ek = encode_branch_key(key);
        let pk = make_prefixed_key(&self.prefix, &ek);
        match h.get(self.branch_ns, &pk) {
            Ok(Some(bytes)) => match decode_branch_node(&bytes) {
                Ok(node) => Ok(Some(node)),
                Err(e) => Err(e),
            },
            Ok(None) => Ok(None),
            Err(e) => Err(e),
        }
    }

    /// Reads the raw bytes stored under this tree's encoded branch key.
    pub fn get_branch_raw<H: ReadHandle>(&self, h: &H, key: &BranchKey) -> (r: Result<
        Option<Vec<u8>>,
        StoreError,
    >)
        requires
            h.inv(),
            self.wf(),
            key.wf(),
        ensures
            raw_read_result(
                h.contents(self.branch_ns as int),
                prefixed_key(self.prefix@, spec_encode_branch_key(key.height, key.node_key@)),
                r,
            ),
    {
        let ek = encode_branch_key(key);
        let pk = make_prefixed_key(&self.prefix, &ek);
        h.get(self.branch_ns, &pk)
    }

    /// Reads the raw bytes stored under this tree's leaf key.
    pub fn get_leaf<H: ReadHandle>(&self, h: &H, key: &Digest) -> (r: Result<
        Option<Vec<u8>>,
        StoreError,
    >)
        requires
            h.inv(),
            self.wf(),
            key.wf(),
        ensures
            raw_read_result(h.contents(self.leaf_ns as int), prefixed_key(self.prefix@, key@), r),
    {
        let pk = make_prefixed_key(&self.prefix, &key.bytes);
        h.get(self.leaf_ns, &pk)
    }

    /// Stores this tree's branch node, encoded, in the branch namespace.
    pub fn insert_branch<H: WriteHandle>(
        &self,
        h: &mut H,
        key: &BranchKey,
        node: &BranchNode,
    ) -> (r: Result<(), StoreError>)
        requires
            old(h).inv(),
            self.wf(),
            key.wf(),
            node.wf(),
        ensures
            final(h).inv(),
            write_result(
                *old(h),
                *final(h),
                self.branch_ns as int,
                prefixed_key(self.prefix@, spec_encode_branch_key(key.height, key.node_key@)),
                spec_encode_branch_node(node.left@, node.right@),
                r,
            ),
    {
        let ek = encode_branch_key(key);
        let pk = make_prefixed_key(&self.prefix, &ek);
        let en = encode_branch_node(node);
        h.put(self.branch_ns, &pk, &en)
    }

    /// Stores caller-encoded branch bytes in the branch namespace.
    pub fn insert_branch_raw<H: WriteHandle>(
        &self,
        h: &mut H,
        key: &BranchKey,
        value: &Vec<u8>,
    ) -> (r: Result<(), StoreError>)
        requires
            old(h).inv(),
            self.wf(),
            key.wf(),
        ensures
            final(h).inv(),
            write_result(
                *old(h),
                *final(h),
                self.branch_ns as int,
                prefixed_key(self.prefix@, spec_encode_branch_key(key.height, key.node_key@)),
                value@,
                r,
            ),
    {
        let ek = encode_branch_key(key);
        let pk = make_prefixed_key(&self.prefix, &ek);
        h.put(self.branch_ns, &pk, value)
    }

    /// Stores this tree's leaf bytes in the leaf namespace.
    pub fn insert_leaf<H: WriteHandle>(&self, h: &mut H, key: &Digest, value: &Vec<u8>) -> (r:
        Result<(), StoreError>)
        requires
            old(h).inv(),
            self.wf(),
            key.wf(),
        ensures
            final(h).inv(),
            write_result(
                *old(h),
                *final(h),
                self.leaf_ns as int,
                prefixed_key(self.prefix@, key@),
                value@,
                r,
            ),
    {
        let pk = make_prefixed_key(&self.prefix, &key.bytes);
        h.put(self.leaf_ns, &pk, value)
    }

    /// Deletes this tree's branch node under `key`; absent is a no-op.
    pub fn remove_branch<H: WriteHandle>(&self, h: &mut H, key: &BranchKey) -> (r: Result<
        (),
        StoreError,
    >)
        requires
            old(h).inv(),
            self.wf(),
            key.wf(),
        ensures
            final(h).inv(),
            delete_result(
                *old(h),
                *final(h),
                self.branch_ns as int,
                prefixed_key(self.prefix@, spec_encode_branch_key(key.height, key.node_key@)),
                r,
            ),
    {
        let ek = encode_branch_key(key);
        let pk = make_prefixed_key(&self.prefix, &ek);
        h.delete(self.branch_ns, &pk)
    }

    /// Deletes this tree's leaf under `key`; absent is a no-op.
    pub fn remove_leaf<H: WriteHandle>(&self, h: &mut H, key: &Digest) -> (r: Result<
        (),
        StoreError,
    >)
        requires
            old(h).inv(),
            self.wf(),
            key.wf(),
        ensures
            final(h).inv(),
            delete_result(*old(h), *final(h), self.leaf_ns as int, prefixed_key(self.prefix@, key@), r),
    {
        let pk = make_prefixed_key(&self.prefix, &key.bytes);
        h.delete(self.leaf_ns, &pk)
    }
}

} // verus!
