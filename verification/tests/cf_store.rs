use std::cell::RefCell;
use std::rc::Rc;

use blake2b_rs::{Blake2b, Blake2bBuilder};
use sparse_merkle_tree::blake2b::Blake2bHasher;
use sparse_merkle_tree::default_store::DefaultStore as SmtMemoryStore;
use sparse_merkle_tree::error::Error as SmtError;
use sparse_merkle_tree::merge::MergeValue;
use sparse_merkle_tree::traits::{Store as SmtStoreOps, Value};
use sparse_merkle_tree::tree::{BranchKey as SmtBranchKey, BranchNode as SmtBranchNode};
use sparse_merkle_tree::{SparseMerkleTree, H256};

use smt_rocksdb_store::codec::{BranchKey, BranchNode, Digest};
use smt_rocksdb_store::cf_store::{ColumnFamilyStore, ColumnFamilyStoreMultiTree};
use smt_rocksdb_store::handle::{ReadHandle, WriteHandle};
use smt_rocksdb_store::mem_store::MemStore;
use smt_rocksdb_store::StoreError;

#[derive(Default, Clone)]
struct Word(String);

impl Value for Word {
    fn to_h256(&self) -> H256 {
        if self.0.is_empty() {
            return H256::zero();
        }
        let mut buf = [0u8; 32];
        let mut hasher = new_blake2b();
        hasher.update(self.0.as_bytes());
        hasher.finalize(&mut buf);
        buf.into()
    }

    fn zero() -> Self {
        Default::default()
    }
}

fn new_blake2b() -> Blake2b {
    Blake2bBuilder::new(32).personal(b"SMT").build()
}

fn make_kvs() -> Vec<(H256, Word)> {
    "The quick brown fox jumps over the lazy dog"
        .split_whitespace()
        .enumerate()
        .map(|(i, word)| {
            let mut buf = [0u8; 32];
            let mut hasher = new_blake2b();
            hasher.update(&(i as u32).to_le_bytes());
            hasher.finalize(&mut buf);
            (buf.into(), Word(word.to_string()))
        })
        .collect()
}

// The tree algorithm's own node format, carried through the store as raw
// branch bytes.
fn merge_value_to_vec(v: &MergeValue) -> Vec<u8> {
    match v {
        MergeValue::Value(h) => {
            let mut out = vec![0u8];
            out.extend_from_slice(h.as_slice());
            out
        }
        MergeValue::MergeWithZero {
            base_node,
            zero_bits,
            zero_count,
        } => {
            let mut out = vec![1u8];
            out.extend_from_slice(base_node.as_slice());
            out.extend_from_slice(zero_bits.as_slice());
            out.push(*zero_count);
            out
        }
    }
}

fn merge_value_from_slice(s: &[u8]) -> (MergeValue, usize) {
    if s[0] == 0 {
        let mut b = [0u8; 32];
        b.copy_from_slice(&s[1..33]);
        (MergeValue::Value(b.into()), 33)
    } else {
        let mut base = [0u8; 32];
        base.copy_from_slice(&s[1..33]);
        let mut bits = [0u8; 32];
        bits.copy_from_slice(&s[33..65]);
        (
            MergeValue::MergeWithZero {
                base_node: base.into(),
                zero_bits: bits.into(),
                zero_count: s[65],
            },
            66,
        )
    }
}

fn branch_node_to_vec(n: &SmtBranchNode) -> Vec<u8> {
    let mut out = merge_value_to_vec(&n.left);
    out.extend_from_slice(&merge_value_to_vec(&n.right));
    out
}

fn slice_to_branch_node(s: &[u8]) -> SmtBranchNode {
    let (left, used) = merge_value_from_slice(s);
    let (right, _) = merge_value_from_slice(&s[used..]);
    SmtBranchNode { left, right }
}

fn to_digest(h: &H256) -> Digest {
    Digest::from_bytes(h.as_slice().to_vec()).unwrap()
}

fn to_branch_key(k: &SmtBranchKey) -> BranchKey {
    BranchKey::new(k.height, to_digest(&k.node_key))
}

fn store_err(e: StoreError) -> SmtError {
    SmtError::Store(format!("{:?}", e))
}

struct SingleTreeStore {
    handle: Rc<RefCell<MemStore>>,
    store: ColumnFamilyStore,
}

impl SmtStoreOps<Word> for SingleTreeStore {
    fn get_branch(&self, branch_key: &SmtBranchKey) -> Result<Option<SmtBranchNode>, SmtError> {
        let h = self.handle.borrow();
        match self.store.get_branch_raw(&*h, &to_branch_key(branch_key)) {
            Ok(Some(bytes)) => Ok(Some(slice_to_branch_node(&bytes))),
            Ok(None) => Ok(None),
            Err(e) => Err(store_err(e)),
        }
    }

    fn get_leaf(&self, leaf_key: &H256) -> Result<Option<Word>, SmtError> {
        let h = self.handle.borrow();
        match self.store.get_leaf(&*h, &to_digest(leaf_key)) {
            Ok(Some(bytes)) => Ok(Some(Word(
                String::from_utf8(bytes).expect("stored value is utf8"),
            ))),
            Ok(None) => Ok(None),
            Err(e) => Err(store_err(e)),
        }
    }

    fn insert_branch(&mut self, node_key: SmtBranchKey, branch: SmtBranchNode) -> Result<(), SmtError> {
        let mut h = self.handle.borrow_mut();
        self.store
            .insert_branch_raw(&mut *h, &to_branch_key(&node_key), &branch_node_to_vec(&branch))
            .map_err(store_err)
    }

    fn insert_leaf(&mut self, leaf_key: H256, leaf: Word) -> Result<(), SmtError> {
        let mut h = self.handle.borrow_mut();
        self.store
            .insert_leaf(&mut *h, &to_digest(&leaf_key), &leaf.0.as_bytes().to_vec())
            .map_err(store_err)
    }

    fn remove_branch(&mut self, node_key: &SmtBranchKey) -> Result<(), SmtError> {
        let mut h = self.handle.borrow_mut();
        self.store
            .remove_branch(&mut *h, &to_branch_key(node_key))
            .map_err(store_err)
    }

    fn remove_leaf(&mut self, leaf_key: &H256) -> Result<(), SmtError> {
        let mut h = self.handle.borrow_mut();
        self.store
            .remove_leaf(&mut *h, &to_digest(leaf_key))
            .map_err(store_err)
    }
}

struct MultiTreeStore {
    handle: Rc<RefCell<MemStore>>,
    store: ColumnFamilyStoreMultiTree,
}

impl SmtStoreOps<Word> for MultiTreeStore {
    fn get_branch(&self, branch_key: &SmtBranchKey) -> Result<Option<SmtBranchNode>, SmtError> {
        let h = self.handle.borrow();
        match self.store.get_branch_raw(&*h, &to_branch_key(branch_key)) {
            Ok(Some(bytes)) => Ok(Some(slice_to_branch_node(&bytes))),
            Ok(None) => Ok(None),
            Err(e) => Err(store_err(e)),
        }
    }

    fn get_leaf(&self, leaf_key: &H256) -> Result<Option<Word>, SmtError> {
        let h = self.handle.borrow();
        match self.store.get_leaf(&*h, &to_digest(leaf_key)) {
            Ok(Some(bytes)) => Ok(Some(Word(
                String::from_utf8(bytes).expect("stored value is utf8"),
            ))),
            Ok(None) => Ok(None),
            Err(e) => Err(store_err(e)),
        }
    }

    fn insert_branch(&mut self, node_key: SmtBranchKey, branch: SmtBranchNode) -> Result<(), SmtError> {
        let mut h = self.handle.borrow_mut();
        self.store
            .insert_branch_raw(&mut *h, &to_branch_key(&node_key), &branch_node_to_vec(&branch))
            .map_err(store_err)
    }

    fn insert_leaf(&mut self, leaf_key: H256, leaf: Word) -> Result<(), SmtError> {
        let mut h = self.handle.borrow_mut();
        self.store
            .insert_leaf(&mut *h, &to_digest(&leaf_key), &leaf.0.as_bytes().to_vec())
            .map_err(store_err)
    }

    fn remove_branch(&mut self, node_key: &SmtBranchKey) -> Result<(), SmtError> {
        let mut h = self.handle.borrow_mut();
        self.store
            .remove_branch(&mut *h, &to_branch_key(node_key))
            .map_err(store_err)
    }

    fn remove_leaf(&mut self, leaf_key: &H256) -> Result<(), SmtError> {
        let mut h = self.handle.borrow_mut();
        self.store
            .remove_leaf(&mut *h, &to_digest(leaf_key))
            .map_err(store_err)
    }
}

type MemorySMT = SparseMerkleTree<Blake2bHasher, Word, SmtMemoryStore<Word>>;
type SingleSMT = SparseMerkleTree<Blake2bHasher, Word, SingleTreeStore>;
type MultiSMT = SparseMerkleTree<Blake2bHasher, Word, MultiTreeStore>;

#[test]
fn cf_store_test_store_functions() {
    let kvs = make_kvs();

    // generate a merkle tree with a memory store
    let (root1, proof1) = {
        let mut memory_store_smt = MemorySMT::new(H256::zero(), SmtMemoryStore::default());
        for (key, value) in kvs.iter() {
            memory_store_smt.update(key.clone(), value.clone()).unwrap();
        }
        let root = memory_store_smt.root().clone();
        let proof = memory_store_smt
            .merkle_proof(vec![kvs[0].0.clone()])
            .unwrap();
        (root, proof)
    };

    // generate a merkle tree with a persisted store
    let (root2, proof2) = {
        let handle = Rc::new(RefCell::new(MemStore::new(2)));
        let store = SingleTreeStore {
            handle: handle.clone(),
            store: ColumnFamilyStore::new(0, 1),
        };
        let mut persisted_smt = SingleSMT::new(H256::zero(), store);
        for (key, value) in kvs.iter() {
            persisted_smt.update(key.clone(), value.clone()).unwrap();
        }
        let root = persisted_smt.root().clone();
        // read the proof back from the persisted state alone
        let reopened_smt = SingleSMT::new(
            root.clone(),
            SingleTreeStore {
                handle: handle.clone(),
                store: ColumnFamilyStore::new(0, 1),
            },
        );
        let proof = reopened_smt.merkle_proof(vec![kvs[0].0.clone()]).unwrap();
        (root, proof)
    };
    assert_eq!(root1, root2);
    assert_eq!(proof1, proof2);

    // the same run against a second, independent persisted store
    let (root3, proof3) = {
        let handle = Rc::new(RefCell::new(MemStore::new(2)));
        let store = SingleTreeStore {
            handle: handle.clone(),
            store: ColumnFamilyStore::new(0, 1),
        };
        let mut persisted_smt = SingleSMT::new(H256::zero(), store);
        for (key, value) in kvs.iter() {
            persisted_smt.update(key.clone(), value.clone()).unwrap();
        }
        let root = persisted_smt.root().clone();
        let reopened_smt = SingleSMT::new(
            root.clone(),
            SingleTreeStore {
                handle: handle.clone(),
                store: ColumnFamilyStore::new(0, 1),
            },
        );
        let proof = reopened_smt.merkle_proof(vec![kvs[0].0.clone()]).unwrap();
        (root, proof)
    };
    assert_eq!(root1, root3);
    assert_eq!(proof1, proof3);
}

#[test]
fn cf_store_test_multi_trees_store_functions() {
    let kvs = make_kvs();

    // generate a merkle tree with a memory store
    let (root1, proof1) = {
        let mut memory_store_smt = MemorySMT::new(H256::zero(), SmtMemoryStore::default());
        for (key, value) in kvs.iter() {
            memory_store_smt.update(key.clone(), value.clone()).unwrap();
        }
        let root = memory_store_smt.root().clone();
        let proof = memory_store_smt
            .merkle_proof(vec![kvs[0].0.clone()])
            .unwrap();
        (root, proof)
    };

    // two trees sharing one persisted namespace
    {
        let handle = Rc::new(RefCell::new(MemStore::new(2)));
        let store1 = MultiTreeStore {
            handle: handle.clone(),
            store: ColumnFamilyStoreMultiTree::new(b"tree1".to_vec(), 0, 1),
        };
        let store2 = MultiTreeStore {
            handle: handle.clone(),
            store: ColumnFamilyStoreMultiTree::new(b"tree2".to_vec(), 0, 1),
        };
        let mut smt1 = MultiSMT::new(H256::zero(), store1);
        let mut smt2 = MultiSMT::new(H256::zero(), store2);
        for (key, value) in kvs.iter() {
            smt1.update(key.clone(), value.clone()).unwrap();
            smt2.update(key.clone(), value.clone()).unwrap();
        }
        smt2.update(kvs.first().unwrap().0.clone(), Word::default())
            .unwrap();

        let root_tree1 = smt1.root().clone();
        let root_tree2 = smt2.root().clone();
        let reopened_smt1 = MultiSMT::new(
            root1.clone(),
            MultiTreeStore {
                handle: handle.clone(),
                store: ColumnFamilyStoreMultiTree::new(b"tree1".to_vec(), 0, 1),
            },
        );
        let proof_tree1 = reopened_smt1.merkle_proof(vec![kvs[0].0.clone()]).unwrap();

        assert_eq!(root1, root_tree1);
        assert_eq!(proof1, proof_tree1);
        assert_ne!(root_tree1, root_tree2);
    }
}

#[test]
fn leaf_writes_go_to_the_leaf_namespace() {
    let mut h = MemStore::new(2);
    let store = ColumnFamilyStore::new(0, 1);
    let key = to_digest(&make_kvs()[0].0);
    store.insert_leaf(&mut h, &key, &b"fox".to_vec()).unwrap();
    // the leaf namespace holds the value; the branch namespace does not
    assert_eq!(h.get(1, &key.to_vec()).unwrap(), Some(b"fox".to_vec()));
    assert_eq!(h.get(0, &key.to_vec()).unwrap(), None);
    assert_eq!(store.get_leaf(&h, &key).unwrap(), Some(b"fox".to_vec()));
    store.remove_leaf(&mut h, &key).unwrap();
    assert_eq!(store.get_leaf(&h, &key).unwrap(), None);
}

#[test]
fn typed_branch_nodes_round_trip_through_the_store() {
    let mut h = MemStore::new(2);
    let store = ColumnFamilyStore::new(0, 1);
    let key = BranchKey::new(9, Digest::from_bytes(vec![4u8; 32]).unwrap());
    let node = BranchNode::new(
        Digest::from_bytes(vec![7u8; 32]).unwrap(),
        Digest::from_bytes(vec![8u8; 32]).unwrap(),
    );
    store.insert_branch(&mut h, &key, &node).unwrap();
    let read = store
        .get_branch(&h, &BranchKey::new(9, Digest::from_bytes(vec![4u8; 32]).unwrap()))
        .unwrap()
        .unwrap();
    assert_eq!(read.left.bytes, vec![7u8; 32]);
    assert_eq!(read.right.bytes, vec![8u8; 32]);
    store
        .remove_branch(&mut h, &BranchKey::new(9, Digest::from_bytes(vec![4u8; 32]).unwrap()))
        .unwrap();
    assert!(store
        .get_branch(&h, &BranchKey::new(9, Digest::from_bytes(vec![4u8; 32]).unwrap()))
        .unwrap()
        .is_none());
}
