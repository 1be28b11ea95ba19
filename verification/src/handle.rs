//! The two capabilities a storage handle may offer.
//!
//! Reads accept any handle able to observe committed state: a read-only
//! snapshot, a plain database handle, or a transaction. Mutations require
//! a transaction. Both capabilities are modelled against the same state:
//! one byte-keyed map per namespace. An engine binding implements these
//! traits outside the verified boundary; the in-memory engine in
//! [`crate::mem_store`] implements them inside it.

use vstd::prelude::*;

use crate::codec::spec_decode_branch_node;
use crate::codec::BranchNode;
use crate::errors::StoreError;
use crate::lex::lex_le;
use crate::lex::lex_lt;

verus! {

/// What a typed branch read returns, given the namespace map `m` and the
/// encoded branch key `ek`: the decoded stored node, `None` for an absent
/// key, an encoding error exactly when the stored bytes do not decode,
/// and otherwise only an engine failure.
pub open spec fn branch_read_result(
    m: Map<Seq<u8>, Seq<u8>>,
    ek: Seq<u8>,
    r: Result<Option<BranchNode>, StoreError>,
) -> bool {
    match r {
        Ok(Some(node)) => node.wf() && m.contains_key(ek) && spec_decode_branch_node(m[ek])
            == Some((node.left@, node.right@)),
        Ok(None) => !m.contains_key(ek),
        Err(e) => e == StoreError::StorageIo || (e == StoreError::Encoding && m.contains_key(ek)
            && spec_decode_branch_node(m[ek]) is None),
    }
}

/// What a raw byte read returns, given the namespace map `m` and the
/// physical key `k`.
pub open spec fn raw_read_result(
    m: Map<Seq<u8>, Seq<u8>>,
    k: Seq<u8>,
    r: Result<Option<Vec<u8>>, StoreError>,
) -> bool {
    match r {
        Ok(Some(v)) => m.contains_key(k) && v@ == m[k],
        Ok(None) => !m.contains_key(k),
        Err(e) => e == StoreError::StorageIo,
    }
}

/// What a write through a handle does: on success namespace `ns` gains
/// exactly the pair `(k, v)` and no other namespace moves; on failure
/// nothing moves.
pub open spec fn write_result<H: ReadHandle>(
    pre: H,
    post: H,
    ns: int,
    k: Seq<u8>,
    v: Seq<u8>,
    r: Result<(), StoreError>,
) -> bool {
    match r {
        Ok(()) => post.contents(ns) == pre.contents(ns).insert(k, v) && (forall|j: int|
            j != ns ==> #[trigger] post.contents(j) == pre.contents(j)),
        Err(e) => e == StoreError::StorageIo && (forall|j: int|
            #[trigger] post.contents(j) == pre.contents(j)),
    }
}

/// What a removal through a handle does: on success namespace `ns` loses
/// exactly the key `k` (a no-op when absent) and no other namespace
/// moves; on failure nothing moves.
pub open spec fn delete_result<H: ReadHandle>(
    pre: H,
    post: H,
    ns: int,
    k: Seq<u8>,
    r: Result<(), StoreError>,
) -> bool {
    match r {
        Ok(()) => post.contents(ns) == pre.contents(ns).remove(k) && (forall|j: int|
            j != ns ==> #[trigger] post.contents(j) == pre.contents(j)),
        Err(e) => e == StoreError::StorageIo && (forall|j: int|
            #[trigger] post.contents(j) == pre.contents(j)),
    }
}

/// The view of scanned entries as sequences of byte strings.
pub open spec fn entries_view(entries: Seq<(Vec<u8>, Vec<u8>)>) -> Seq<(Seq<u8>, Seq<u8>)> {
    Seq::new(entries.len(), |i: int| (entries[i].0@, entries[i].1@))
}

/// What an ordered forward scan must return: exactly the entries of `m`
/// whose key is at or above `start`, in strictly ascending key order.
pub open spec fn scan_result_matches(
    m: Map<Seq<u8>, Seq<u8>>,
    start: Seq<u8>,
    entries: Seq<(Seq<u8>, Seq<u8>)>,
) -> bool {
    &&& (forall|i: int|
        0 <= i < entries.len() ==> m.contains_pair((#[trigger] entries[i]).0, entries[i].1))
    &&& (forall|i: int| 0 <= i < entries.len() ==> lex_le(start, (#[trigger] entries[i]).0))
    &&& (forall|i: int, j: int|
        #![trigger entries[i], entries[j]]
        0 <= i < j < entries.len() ==> lex_lt(entries[i].0, entries[j].0))
    &&& (forall|k: Seq<u8>|
        #[trigger] m.contains_key(k) && lex_le(start, k) ==> exists|i: int|
            0 <= i < entries.len() && (#[trigger] entries[i]).0 == k)
}

/// A handle able to read one consistent state of the engine.
///
/// `contents(ns)` is the byte map the handle observes in namespace `ns`;
/// a snapshot observes one fixed committed state, a transaction observes
/// the committed state plus its own writes.
pub trait ReadHandle: Sized {
    /// The handle's internal well-formedness.
    spec fn inv(&self) -> bool;

    /// The byte map the handle observes in namespace `ns`.
    spec fn contents(&self, ns: int) -> Map<Seq<u8>, Seq<u8>>;

    /// Point lookup of `key` in namespace `ns`. Absence is `Ok(None)`,
    /// never an error; a failure of the engine itself is `StorageIo`.
    fn get(&self, ns: usize, key: &Vec<u8>) -> (r: Result<Option<Vec<u8>>, StoreError>)
        requires
            self.inv(),
        ensures
            match r {
                Ok(Some(v)) => self.contents(ns as int).contains_key(key@) && v@ == self.contents(
                    ns as int,
                )[key@],
                Ok(None) => !self.contents(ns as int).contains_key(key@),
                Err(e) => e == StoreError::StorageIo,
            },
    ;

    /// Ordered forward scan of namespace `ns`, beginning at the first key
    /// at or above `start` and running to the end of the namespace.
    fn scan_from(&self, ns: usize, start: &Vec<u8>) -> (r: Result<
        Vec<(Vec<u8>, Vec<u8>)>,
        StoreError,
    >)
        requires
            self.inv(),
        ensures
            match r {
                Ok(entries) => scan_result_matches(
                    self.contents(ns as int),
                    start@,
                    entries_view(entries@),
                ),
                Err(e) => e == StoreError::StorageIo,
            },
    ;
}

/// A handle able to mutate state: a transaction. A successful mutation
/// updates exactly the addressed key of the addressed namespace; a failed
/// one leaves every namespace as it was.
pub trait WriteHandle: ReadHandle {
    /// Unconditional overwrite of `key` with `value` in namespace `ns`.
    fn put(&mut self, ns: usize, key: &Vec<u8>, value: &Vec<u8>) -> (r: Result<(), StoreError>)
        requires
            old(self).inv(),
        ensures
            final(self).inv(),
            match r {
                Ok(()) => final(self).contents(ns as int) == old(self).contents(
                    ns as int,
                ).insert(key@, value@) && (forall|j: int|
                    j != ns as int ==> #[trigger] final(self).contents(j) == old(self).contents(
                        j,
                    )),
                Err(e) => e == StoreError::StorageIo && (forall|j: int|
                    #[trigger] final(self).contents(j) == old(self).contents(j)),
            },
    ;

    /// Removal of `key` from namespace `ns`; removing an absent key
    /// succeeds and changes nothing.
    fn delete(&mut self, ns: usize, key: &Vec<u8>) -> (r: Result<(), StoreError>)
        requires
            old(self).inv(),
        ensures
            final(self).inv(),
            match r {
                Ok(()) => final(self).contents(ns as int) == old(self).contents(ns as int).remove(
                    key@,
                ) && (forall|j: int|
                    j != ns as int ==> #[trigger] final(self).contents(j) == old(self).contents(
                        j,
                    )),
                Err(e) => e == StoreError::StorageIo && (forall|j: int|
                    #[trigger] final(self).contents(j) == old(self).contents(j)),
            },
    ;
}

} // verus!
