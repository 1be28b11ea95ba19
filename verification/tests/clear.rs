use std::cell::RefCell;
use std::rc::Rc;

use blake2b_rs::{Blake2b, Blake2bBuilder};
use sparse_merkle_tree::blake2b::Blake2bHasher;
use sparse_merkle_tree::error::Error as SmtError;
use sparse_merkle_tree::merge::MergeValue;
use sparse_merkle_tree::traits::{Store as SmtStoreOps, Value};
use sparse_merkle_tree::tree::{BranchKey as SmtBranchKey, BranchNode as SmtBranchNode};
use sparse_merkle_tree::{SparseMerkleTree, H256};

use smt_rocksdb_store::codec::{BranchKey, Digest};
use smt_rocksdb_store::clear::{check_clear_root, collect_leaf_keys};
use smt_rocksdb_store::default_store::DefaultStoreMultiTree;
use smt_rocksdb_store::handle::ReadHandle;
use smt_rocksdb_store::mem_store::MemStore;
use smt_rocksdb_store::StoreError;

#[derive(Default, Clone)]
struct Word(String);

impl Value for Word {
    fn to_h256(&self) -> H256 {
        if self.0.is_empty() {
            return H256::zero();
        }
        let mut buf = [0u8; 32];
        let mut hasher = new_blake2b();
        hasher.update(self.0.as_bytes());
        hasher.finalize(&mut buf);
        buf.into()
    }

    fn zero() -> Self {
        Default::default()
    }
}

fn new_blake2b() -> Blake2b {
    Blake2bBuilder::new(32).personal(b"SMT").build()
}

fn make_kvs() -> Vec<(H256, Word)> {
    "The quick brown fox jumps over the lazy dog"
        .split_whitespace()
        .enumerate()
        .map(|(i, word)| {
            let mut buf = [0u8; 32];
            let mut hasher = new_blake2b();
            hasher.update(&(i as u32).to_le_bytes());
            hasher.finalize(&mut buf);
            (buf.into(), Word(word.to_string()))
        })
        .collect()
}

// The tree algorithm's own node format, carried through the store as raw
// branch bytes.
fn merge_value_to_vec(v: &MergeValue) -> Vec<u8> {
    match v {
        MergeValue::Value(h) => {
            let mut out = vec![0u8];
            out.extend_from_slice(h.as_slice());
            out
        }
        MergeValue::MergeWithZero {
            base_node,
            zero_bits,
            zero_count,
        } => {
            let mut out = vec![1u8];
            out.extend_from_slice(base_node.as_slice());
            out.extend_from_slice(zero_bits.as_slice());
            out.push(*zero_count);
            out
        }
    }
}

fn merge_value_from_slice(s: &[u8]) -> (MergeValue, usize) {
    if s[0] == 0 {
        let mut b = [0u8; 32];
        b.copy_from_slice(&s[1..33]);
        (MergeValue::Value(b.into()), 33)
    } else {
        let mut base = [0u8; 32];
        base.copy_from_slice(&s[1..33]);
        let mut bits = [0u8; 32];
        bits.copy_from_slice(&s[33..65]);
        (
            MergeValue::MergeWithZero {
                base_node: base.into(),
                zero_bits: bits.into(),
                zero_count: s[65],
            },
            66,
        )
    }
}

fn branch_node_to_vec(n: &SmtBranchNode) -> Vec<u8> {
    let mut out = merge_value_to_vec(&n.left);
    out.extend_from_slice(&merge_value_to_vec(&n.right));
    out
}

fn slice_to_branch_node(s: &[u8]) -> SmtBranchNode {
    let (left, used) = merge_value_from_slice(s);
    let (right, _) = merge_value_from_slice(&s[used..]);
    SmtBranchNode { left, right }
}

fn to_digest(h: &H256) -> Digest {
    Digest::from_bytes(h.as_slice().to_vec()).unwrap()
}

fn to_branch_key(k: &SmtBranchKey) -> BranchKey {
    BranchKey::new(k.height, to_digest(&k.node_key))
}

fn store_err(e: StoreError) -> SmtError {
    SmtError::Store(format!("{:?}", e))
}

struct MultiTreeStore {
    handle: Rc<RefCell<MemStore>>,
    store: DefaultStoreMultiTree,
}

impl SmtStoreOps<Word> for MultiTreeStore {
    fn get_branch(&self, branch_key: &SmtBranchKey) -> Result<Option<SmtBranchNode>, SmtError> {
        let h = self.handle.borrow();
        match self.store.get_branch_raw(&*h, &to_branch_key(branch_key)) {
            Ok(Some(bytes)) => Ok(Some(slice_to_branch_node(&bytes))),
            Ok(None) => Ok(None),
            Err(e) => Err(store_err(e)),
        }
    }

    fn get_leaf(&self, leaf_key: &H256) -> Result<Option<Word>, SmtError> {
        let h = self.handle.borrow();
        match self.store.get_leaf(&*h, &to_digest(leaf_key)) {
            Ok(Some(bytes)) => Ok(Some(Word(
                String::from_utf8(bytes).expect("stored value is utf8"),
            ))),
            Ok(None) => Ok(None),
            Err(e) => Err(store_err(e)),
        }
    }

    fn insert_branch(&mut self, node_key: SmtBranchKey, branch: SmtBranchNode) -> Result<(), SmtError> {
        let mut h = self.handle.borrow_mut();
        self.store
            .insert_branch_raw(&mut *h, &to_branch_key(&node_key), &branch_node_to_vec(&branch))
            .map_err(store_err)
    }

    fn insert_leaf(&mut self, leaf_key: H256, leaf: Word) -> Result<(), SmtError> {
        let mut h = self.handle.borrow_mut();
        self.store
            .insert_leaf(&mut *h, &to_digest(&leaf_key), &leaf.0.as_bytes().to_vec())
            .map_err(store_err)
    }

    fn remove_branch(&mut self, node_key: &SmtBranchKey) -> Result<(), SmtError> {
        let mut h = self.handle.borrow_mut();
        self.store
            .remove_branch(&mut *h, &to_branch_key(node_key))
            .map_err(store_err)
    }

    fn remove_leaf(&mut self, leaf_key: &H256) -> Result<(), SmtError> {
        let mut h = self.handle.borrow_mut();
        self.store
            .remove_leaf(&mut *h, &to_digest(leaf_key))
            .map_err(store_err)
    }
}


type MultiSMT = SparseMerkleTree<Blake2bHasher, Word, MultiTreeStore>;

fn h256_of(d: &Digest) -> H256 {
    let mut b = [0u8; 32];
    b.copy_from_slice(&d.to_vec());
    b.into()
}

fn multi_store(handle: &Rc<RefCell<MemStore>>, tree: &[u8]) -> MultiTreeStore {
    MultiTreeStore {
        handle: handle.clone(),
        store: DefaultStoreMultiTree::new(tree.to_vec()),
    }
}

#[test]
fn clear_empties_a_populated_tree_and_is_idempotent() {
    let kvs = make_kvs();
    let handle = Rc::new(RefCell::new(MemStore::new(1)));

    // populate two trees so the reset of one can be watched beside the other
    let mut smt1 = MultiSMT::new(H256::zero(), multi_store(&handle, b"tree1"));
    let mut smt2 = MultiSMT::new(H256::zero(), multi_store(&handle, b"tree2"));
    for (key, value) in kvs.iter() {
        smt1.update(key.clone(), value.clone()).unwrap();
        smt2.update(key.clone(), value.clone()).unwrap();
    }
    let root_tree1 = smt1.root().clone();
    let root_tree2 = smt2.root().clone();
    assert_ne!(root_tree1, H256::zero());

    // plan the reset under one consistent view: exactly the tree's leaves
    let keys = collect_leaf_keys(&*handle.borrow(), &b"tree1".to_vec()).unwrap();
    assert_eq!(keys.len(), kvs.len());

    // one batched update of every leaf to the zero value empties the tree
    let zero_kvs: Vec<(H256, Word)> = keys.iter().map(|d| (h256_of(d), Word::zero())).collect();
    let mut reset_smt = MultiSMT::new(root_tree1, multi_store(&handle, b"tree1"));
    reset_smt.update_all(zero_kvs).unwrap();
    let new_root = reset_smt.root().clone();
    let new_root_digest = Digest::from_bytes(new_root.as_slice().to_vec()).unwrap();
    assert!(check_clear_root(&new_root_digest).is_ok());
    assert_eq!(new_root, H256::zero());

    // a fresh read of the emptied tree yields the all-zero root
    let reread = MultiSMT::new(H256::zero(), multi_store(&handle, b"tree1"));
    assert!(reread.get(&kvs[0].0).unwrap().0.is_empty());

    // clearing the already-empty tree finds nothing to update, so the
    // reset is a no-op and the root stays all-zero
    let keys_again = collect_leaf_keys(&*handle.borrow(), &b"tree1".to_vec()).unwrap();
    assert!(keys_again.is_empty());
    let reset_again = MultiSMT::new(H256::zero(), multi_store(&handle, b"tree1"));
    assert_eq!(reset_again.root().clone(), H256::zero());

    // the other tree kept its root and its leaves
    let other = MultiSMT::new(root_tree2, multi_store(&handle, b"tree2"));
    assert_eq!(other.get(&kvs[0].0).unwrap().0, kvs[0].1 .0);
}

#[test]
fn clear_check_rejects_a_non_zero_root() {
    let bad = Digest::from_bytes(vec![1u8; 32]).unwrap();
    assert_eq!(check_clear_root(&bad), Err(StoreError::ClearInvariantViolation));
    assert!(check_clear_root(&Digest::zero()).is_ok());
}

#[test]
fn uncommitted_writes_stay_in_their_transaction_view() {
    // `committed` stands for the engine's committed state; `tx` for one
    // transaction's private view that is never committed.
    let committed = MemStore::new(1);
    let mut tx = MemStore::new(1);
    let store = DefaultStoreMultiTree::new(b"tree1".to_vec());
    let key = Digest::from_bytes(vec![5u8; 32]).unwrap();
    store.insert_leaf(&mut tx, &key, &b"value".to_vec()).unwrap();

    // the transaction reads its own write
    assert_eq!(store.get_leaf(&tx, &key).unwrap(), Some(b"value".to_vec()));
    // a snapshot of committed state observes nothing of it
    assert_eq!(store.get_leaf(&committed, &key).unwrap(), None);
}
