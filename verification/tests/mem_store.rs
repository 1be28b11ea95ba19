use smt_rocksdb_store::handle::{ReadHandle, WriteHandle};
use smt_rocksdb_store::mem_store::MemStore;
use smt_rocksdb_store::StoreError;

#[test]
fn put_then_get_returns_the_value() {
    let mut h = MemStore::new(1);
    h.put(0, &vec![1, 2, 3], &vec![9]).unwrap();
    assert_eq!(h.get(0, &vec![1, 2, 3]).unwrap(), Some(vec![9]));
}

#[test]
fn get_absent_key_is_none() {
    let h = MemStore::new(1);
    assert_eq!(h.get(0, &vec![1]).unwrap(), None);
}

#[test]
fn put_overwrites_last_write_wins() {
    let mut h = MemStore::new(1);
    h.put(0, &vec![1], &vec![1]).unwrap();
    h.put(0, &vec![1], &vec![2]).unwrap();
    assert_eq!(h.get(0, &vec![1]).unwrap(), Some(vec![2]));
}

#[test]
fn delete_removes_and_absent_delete_is_noop() {
    let mut h = MemStore::new(1);
    h.put(0, &vec![1], &vec![1]).unwrap();
    h.delete(0, &vec![1]).unwrap();
    assert_eq!(h.get(0, &vec![1]).unwrap(), None);
    h.delete(0, &vec![1]).unwrap();
    h.delete(0, &vec![42]).unwrap();
}

#[test]
fn namespaces_are_independent() {
    let mut h = MemStore::new(2);
    h.put(0, &vec![7], &vec![1]).unwrap();
    assert_eq!(h.get(1, &vec![7]).unwrap(), None);
    h.put(1, &vec![7], &vec![2]).unwrap();
    assert_eq!(h.get(0, &vec![7]).unwrap(), Some(vec![1]));
    assert_eq!(h.get(1, &vec![7]).unwrap(), Some(vec![2]));
}

#[test]
fn put_to_unknown_namespace_fails() {
    let mut h = MemStore::new(1);
    assert_eq!(h.put(1, &vec![1], &vec![1]), Err(StoreError::StorageIo));
    assert_eq!(h.get(1, &vec![1]).unwrap(), None);
}

#[test]
fn scan_is_ordered_and_starts_at_the_given_key() {
    let mut h = MemStore::new(1);
    h.put(0, &vec![3, 1], &vec![31]).unwrap();
    h.put(0, &vec![1], &vec![1]).unwrap();
    h.put(0, &vec![2, 0, 0], &vec![200]).unwrap();
    h.put(0, &vec![3], &vec![3]).unwrap();

    let all = h.scan_from(0, &Vec::new()).unwrap();
    let keys: Vec<Vec<u8>> = all.iter().map(|(k, _)| k.clone()).collect();
    assert_eq!(keys, vec![vec![1], vec![2, 0, 0], vec![3], vec![3, 1]]);

    let tail = h.scan_from(0, &vec![3]).unwrap();
    let tail_keys: Vec<Vec<u8>> = tail.iter().map(|(k, _)| k.clone()).collect();
    assert_eq!(tail_keys, vec![vec![3], vec![3, 1]]);

    let past_end = h.scan_from(0, &vec![9]).unwrap();
    assert!(past_end.is_empty());
}
