use smt_rocksdb_store::codec::Digest;
use smt_rocksdb_store::default_store::DefaultStoreMultiTree;
use smt_rocksdb_store::handle::{ReadHandle, WriteHandle};
use smt_rocksdb_store::mem_store::MemStore;
use smt_rocksdb_store::registry::{load_root, registry_key, save_root};
use smt_rocksdb_store::StoreError;

#[test]
fn saved_root_is_recovered() {
    let mut h = MemStore::new(1);
    let root = Digest::from_bytes(vec![0xCD; 32]).unwrap();
    save_root(&mut h, &b"tree1".to_vec(), &root).unwrap();
    let recovered = load_root(&h, &b"tree1".to_vec()).unwrap();
    assert_eq!(recovered.to_vec(), vec![0xCD; 32]);
}

#[test]
fn absent_registry_entry_means_the_empty_tree() {
    let h = MemStore::new(1);
    let recovered = load_root(&h, &b"tree1".to_vec()).unwrap();
    assert!(recovered.is_zero());
}

#[test]
fn corrupt_registry_entry_is_an_encoding_error() {
    let mut h = MemStore::new(1);
    let rk = registry_key(&b"tree1".to_vec());
    h.put(0, &rk, &vec![1u8; 31]).unwrap();
    assert_eq!(load_root(&h, &b"tree1".to_vec()), Err(StoreError::Encoding));
}

#[test]
fn registry_entries_of_distinct_trees_are_independent() {
    let mut h = MemStore::new(1);
    let root1 = Digest::from_bytes(vec![1u8; 32]).unwrap();
    let root2 = Digest::from_bytes(vec![2u8; 32]).unwrap();
    save_root(&mut h, &b"tree1".to_vec(), &root1).unwrap();
    save_root(&mut h, &b"tree2".to_vec(), &root2).unwrap();
    assert_eq!(load_root(&h, &b"tree1".to_vec()).unwrap().to_vec(), vec![1u8; 32]);
    assert_eq!(load_root(&h, &b"tree2".to_vec()).unwrap().to_vec(), vec![2u8; 32]);
}

#[test]
fn registry_entry_never_aliases_content_keys() {
    let mut h = MemStore::new(1);
    let store = DefaultStoreMultiTree::new(b"tree1".to_vec());
    let root = Digest::from_bytes(vec![0xEE; 32]).unwrap();
    save_root(&mut h, &b"tree1".to_vec(), &root).unwrap();

    // no leaf of the tree observes the registry write
    let probe = Digest::from_bytes(vec![0u8; 32]).unwrap();
    assert_eq!(store.get_leaf(&h, &probe).unwrap(), None);

    // and leaf writes leave the registry entry alone
    store
        .insert_leaf(&mut h, &probe, &b"value".to_vec())
        .unwrap();
    assert_eq!(load_root(&h, &b"tree1".to_vec()).unwrap().to_vec(), vec![0xEE; 32]);
}
