//! A verified in-memory storage engine.
//!
//! Each namespace is an association list kept strictly sorted by key in
//! lexicographic order, so ordered scans fall out of the representation.
//! The engine satisfies both handle capabilities of [`crate::handle`]
//! and is the reference against which the adapters can be exercised
//! without a database on disk.

use vstd::prelude::*;

use crate::codec::copy_range;
use crate::errors::StoreError;
use crate::handle::entries_view;
use crate::handle::scan_result_matches;
use crate::handle::ReadHandle;
use crate::handle::WriteHandle;
use crate::lex::lex_compare;
use crate::lex::lex_le;
use crate::lex::lex_lt;
use crate::lex::lemma_lex_le_antisym;
use crate::lex::lemma_lex_le_total;
use crate::lex::lemma_lex_le_trans;
use vstd::std_specs::vec::vec_index_mut;

verus! {

/// First-match lookup in an association list.
pub open spec fn assoc_get(s: Seq<(Seq<u8>, Seq<u8>)>, k: Seq<u8>) -> Option<Seq<u8>>
    decreases s.len(),
{
    if s.len() == 0 {
        None
    } else if s[0].0 == k {
        Some(s[0].1)
    } else {
        assoc_get(s.drop_first(), k)
    }
}

/// The map an association list denotes.
pub open spec fn assoc_map(s: Seq<(Seq<u8>, Seq<u8>)>) -> Map<Seq<u8>, Seq<u8>> {
    Map::new(|k: Seq<u8>| assoc_get(s, k) is Some, |k: Seq<u8>| assoc_get(s, k)->Some_0)
}

/// Strict ascending key order; it implies the keys are pairwise distinct.
pub open spec fn sorted_strict(s: Seq<(Seq<u8>, Seq<u8>)>) -> bool {
    forall|i: int, j: int|
        #![trigger s[i], s[j]]
        0 <= i < j < s.len() ==> lex_lt(s[i].0, s[j].0)
}

/// Strictness of the order carries over to transitivity.
proof fn lemma_lex_lt_trans(a: Seq<u8>, b: Seq<u8>, c: Seq<u8>)
    requires
        lex_lt(a, b),
        lex_lt(b, c),
    ensures
        lex_lt(a, c),
{
    lemma_lex_le_trans(a, b, c);
    if a == c {
        lemma_lex_le_antisym(a, b);
    }
}

/// In a sorted list every key's first match is its only occurrence.
proof fn lemma_assoc_get_present(s: Seq<(Seq<u8>, Seq<u8>)>, i: int)
    requires
        sorted_strict(s),
        0 <= i < s.len(),
    ensures
        assoc_get(s, s[i].0) == Some(s[i].1),
    decreases i,
{
    if i == 0 {
    } else {
        assert(lex_lt(s[0].0, s[i].0));
        assert(s[0].0 != s[i].0);
        let s1 = s.drop_first();
        assert(sorted_strict(s1)) by {
            assert(forall|a: int, b: int|
                #![trigger s1[a], s1[b]]
                0 <= a < b < s1.len() ==> s1[a] == s[a + 1] && s1[b] == s[b + 1]);
        }
        assert(s1[i - 1] == s[i]);
        lemma_assoc_get_present(s1, i - 1);
    }
}

/// A present key occurs at some index.
proof fn lemma_assoc_get_to_index(s: Seq<(Seq<u8>, Seq<u8>)>, q: Seq<u8>)
    requires
        assoc_get(s, q) is Some,
    ensures
        exists|i: int| 0 <= i < s.len() && (#[trigger] s[i]).0 == q,
    decreases s.len(),
{
    if s[0].0 == q {
        assert(s[0].0 == q);
    } else {
        lemma_assoc_get_to_index(s.drop_first(), q);
        let i = choose|i: int| 0 <= i < s.drop_first().len() && (#[trigger] s.drop_first()[i]).0
            == q;
        assert(s[i + 1].0 == q);
    }
}

/// A key occurring at no index is absent.
proof fn lemma_assoc_get_absent(s: Seq<(Seq<u8>, Seq<u8>)>, q: Seq<u8>)
    requires
        forall|i: int| 0 <= i < s.len() ==> (#[trigger] s[i]).0 != q,
    ensures
        assoc_get(s, q) is None,
    decreases s.len(),
{
    if s.len() == 0 {
    } else {
        let s1 = s.drop_first();
        assert(forall|i: int| 0 <= i < s1.len() ==> (#[trigger] s1[i]).0 != q) by {
            assert(forall|i: int| 0 <= i < s1.len() ==> #[trigger] s1[i] == s[i + 1]);
        }
        lemma_assoc_get_absent(s1, q);
    }
}

/// Effect of inserting a pair at a position before which its key does not
/// occur: the denoted lookup gains exactly that key.
#[verifier::rlimit(50)]
proof fn lemma_assoc_get_insert(
    s: Seq<(Seq<u8>, Seq<u8>)>,
    i: int,
    k: Seq<u8>,
    v: Seq<u8>,
    q: Seq<u8>,
)
    requires
        0 <= i <= s.len(),
        forall|j: int| 0 <= j < i ==> (#[trigger] s[j]).0 != k,
    ensures
        assoc_get(s.insert(i, (k, v)), q) == if q == k {
            Some(v)
        } else {
            assoc_get(s, q)
        },
    decreases i,
{
    let s2 = s.insert(i, (k, v));
    s.insert_ensures(i, (k, v));
    if i == 0 {
        assert(s2[0] == (k, v));
        if q == k {
        } else {
            assert(s2.drop_first() =~= s) by {
                assert(forall|j: int| 0 <= j < s.len() ==> #[trigger] s2.drop_first()[j] == s2[j
                    + 1]);
            }
        }
    } else {
        assert(s2[0] == s[0]);
        let s1 = s.drop_first();
        assert(s2.drop_first() =~= s1.insert(i - 1, (k, v))) by {
            s1.insert_ensures(i - 1, (k, v));
            assert(forall|j: int| 0 <= j < s2.len() - 1 ==> #[trigger] s2.drop_first()[j] == s2[j
                + 1]);
        }
        assert(forall|j: int| 0 <= j < i - 1 ==> (#[trigger] s1[j]).0 != k) by {
            assert(forall|j: int| 0 <= j < s1.len() ==> #[trigger] s1[j] == s[j + 1]);
        }
        lemma_assoc_get_insert(s1, i - 1, k, v, q);
        if s[0].0 == q {
        } else {
        }
    }
}

/// Effect of overwriting the value at a key's first occurrence.
proof fn lemma_assoc_get_update(s: Seq<(Seq<u8>, Seq<u8>)>, i: int, v: Seq<u8>, q: Seq<u8>)
    requires
        0 <= i < s.len(),
        forall|j: int| 0 <= j < i ==> (#[trigger] s[j]).0 != s[i].0,
    ensures
        assoc_get(s.update(i, (s[i].0, v)), q) == if q == s[i].0 {
            Some(v)
        } else {
            assoc_get(s, q)
        },
    decreases i,
{
    let s2 = s.update(i, (s[i].0, v));
    if i == 0 {
        assert(s2[0] == (s[0].0, v));
        if q == s[0].0 {
        } else {
            assert(s2.drop_first() =~= s.drop_first()) by {
                assert(forall|j: int|
                    0 <= j < s.len() - 1 ==> #[trigger] s2.drop_first()[j] == s2[j + 1]
                        && s.drop_first()[j] == s[j + 1]);
            }
        }
    } else {
        assert(s2[0] == s[0]);
        let s1 = s.drop_first();
        assert(s2.drop_first() =~= s1.update(i - 1, (s[i].0, v))) by {
            assert(forall|j: int|
                0 <= j < s.len() - 1 ==> #[trigger] s2.drop_first()[j] == s2[j + 1] && s1[j] == s[j
                    + 1]);
        }
        assert(forall|j: int| 0 <= j < i - 1 ==> (#[trigger] s1[j]).0 != s1[i - 1].0) by {
            assert(forall|j: int| 0 <= j < s1.len() ==> #[trigger] s1[j] == s[j + 1]);
        }
        assert(s1[i - 1] == s[i]);
        lemma_assoc_get_update(s1, i - 1, v, q);
    }
}

/// Effect of removing the only occurrence of a key.
proof fn lemma_assoc_get_remove(s: Seq<(Seq<u8>, Seq<u8>)>, i: int, q: Seq<u8>)
    requires
        0 <= i < s.len(),
        forall|j: int| 0 <= j < s.len() && j != i ==> (#[trigger] s[j]).0 != s[i].0,
    ensures
        assoc_get(s.remove(i), q) == if q == s[i].0 {
            None::<Seq<u8>>
        } else {
            assoc_get(s, q)
        },
    decreases i,
{
    let s2 = s.remove(i);
    s.remove_ensures(i);
    if i == 0 {
        assert(s2 =~= s.drop_first()) by {
            assert(forall|j: int|
                0 <= j < s.len() - 1 ==> #[trigger] s2[j] == s[j + 1] && s.drop_first()[j] == s[j
                    + 1]);
        }
        if q == s[0].0 {
            assert(forall|j: int|
                0 <= j < s.drop_first().len() ==> (#[trigger] s.drop_first()[j]).0 != q) by {
                assert(forall|j: int|
                    0 <= j < s.drop_first().len() ==> #[trigger] s.drop_first()[j] == s[j + 1]);
            }
            lemma_assoc_get_absent(s.drop_first(), q);
        }
    } else {
        assert(s2[0] == s[0]);
        let s1 = s.drop_first();
        assert(s2.drop_first() =~= s1.remove(i - 1)) by {
            s1.remove_ensures(i - 1);
            assert(forall|j: int|
                0 <= j < s.len() - 2 ==> #[trigger] s2.drop_first()[j] == s2[j + 1]);
            assert(forall|j: int| 0 <= j < s1.len() ==> #[trigger] s1[j] == s[j + 1]);
        }
        assert(forall|j: int| 0 <= j < s1.len() && j != i - 1 ==> (#[trigger] s1[j]).0 != s1[i
            - 1].0) by {
            assert(forall|j: int| 0 <= j < s1.len() ==> #[trigger] s1[j] == s[j + 1]);
        }
        assert(s1[i - 1] == s[i]);
        lemma_assoc_get_remove(s1, i - 1, q);
        if s[0].0 == q {
            assert(s[0].0 != s[i].0);
        }
    }
}

/// The entry view of an updated list.
proof fn lemma_entries_view_update(sv: Seq<(Vec<u8>, Vec<u8>)>, i: int, p: (Vec<u8>, Vec<u8>))
    requires
        0 <= i < sv.len(),
    ensures
        entries_view(sv.update(i, p)) =~= entries_view(sv).update(i, (p.0@, p.1@)),
{
}

/// The entry view of a list with one pair inserted.
proof fn lemma_entries_view_insert(sv: Seq<(Vec<u8>, Vec<u8>)>, i: int, p: (Vec<u8>, Vec<u8>))
    requires
        0 <= i <= sv.len(),
    ensures
        entries_view(sv.insert(i, p)) =~= entries_view(sv).insert(i, (p.0@, p.1@)),
{
    sv.insert_ensures(i, p);
    entries_view(sv).insert_ensures(i, (p.0@, p.1@));
}

/// The entry view of a list with one pair removed.
proof fn lemma_entries_view_remove(sv: Seq<(Vec<u8>, Vec<u8>)>, i: int)
    requires
        0 <= i < sv.len(),
    ensures
        entries_view(sv.remove(i)) =~= entries_view(sv).remove(i),
{
    sv.remove_ensures(i);
    entries_view(sv).remove_ensures(i);
}

/// Sortedness is preserved by inserting at the position the order demands.
proof fn lemma_sorted_insert(s: Seq<(Seq<u8>, Seq<u8>)>, i: int, k: Seq<u8>, v: Seq<u8>)
    requires
        sorted_strict(s),
        0 <= i <= s.len(),
        forall|j: int| 0 <= j < i ==> lex_lt((#[trigger] s[j]).0, k),
        forall|j: int| i <= j < s.len() ==> lex_lt(k, (#[trigger] s[j]).0),
    ensures
        sorted_strict(s.insert(i, (k, v))),
{
    let s2 = s.insert(i, (k, v));
    s.insert_ensures(i, (k, v));
    assert forall|a: int, b: int| 0 <= a < b < s2.len() implies lex_lt(
        (#[trigger] s2[a]).0,
        (#[trigger] s2[b]).0,
    ) by {
        if a < i && b < i {
            assert(s2[a] == s[a] && s2[b] == s[b]);
        } else if a < i && b == i {
            assert(s2[a] == s[a]);
        } else if a < i && b > i {
            assert(s2[a] == s[a] && s2[b] == s[b - 1]);
        } else if a == i {
            assert(s2[b] == s[b - 1]);
        } else {
            assert(s2[a] == s[a - 1] && s2[b] == s[b - 1]);
        }
    }
}

/// Sortedness is preserved by overwriting a value in place.
proof fn lemma_sorted_update(s: Seq<(Seq<u8>, Seq<u8>)>, i: int, v: Seq<u8>)
    requires
        sorted_strict(s),
        0 <= i < s.len(),
    ensures
        sorted_strict(s.update(i, (s[i].0, v))),
{
    let s2 = s.update(i, (s[i].0, v));
    assert forall|a: int, b: int| 0 <= a < b < s2.len() implies lex_lt(
        (#[trigger] s2[a]).0,
        (#[trigger] s2[b]).0,
    ) by {
        assert(s2[a].0 == s[a].0 && s2[b].0 == s[b].0);
    }
}

/// Sortedness is preserved by removal.
proof fn lemma_sorted_remove(s: Seq<(Seq<u8>, Seq<u8>)>, i: int)
    requires
        sorted_strict(s),
        0 <= i < s.len(),
    ensures
        sorted_strict(s.remove(i)),
{
    let s2 = s.remove(i);
    s.remove_ensures(i);
    assert forall|a: int, b: int| 0 <= a < b < s2.len() implies lex_lt(
        (#[trigger] s2[a]).0,
        (#[trigger] s2[b]).0,
    ) by {
        let a0 = if a < i {
            a
        } else {
            a + 1
        };
        let b0 = if b < i {
            b
        } else {
            b + 1
        };
        assert(s2[a] == s[a0] && s2[b] == s[b0]);
    }
}

/// A fresh copy of a byte vector.
fn clone_bytes(src: &Vec<u8>) -> (r: Vec<u8>)
    ensures
        r@ == src@,
{
    let r = copy_range(src, 0, src.len());
    proof {
        assert(src@.subrange(0, src@.len() as int) =~= src@);
    }
    r
}

/// The in-memory engine: a fixed number of namespaces, each a strictly
/// sorted association list from byte keys to byte values.
pub struct MemStore {
    spaces: Vec<Vec<(Vec<u8>, Vec<u8>)>>,
}

impl MemStore {
    /// The entry view of one namespace.
    pub closed spec fn space_view(&self, ns: int) -> Seq<(Seq<u8>, Seq<u8>)> {
        entries_view(self.spaces@[ns]@)
    }

    /// How many namespaces the engine was created with.
    pub closed spec fn spec_namespace_count(&self) -> int {
        self.spaces@.len() as int
    }

    /// A fresh engine with `namespaces` empty namespaces. Reads outside
    /// that range see an empty namespace; writes outside it fail.
    pub fn new(namespaces: usize) -> (r: MemStore)
        ensures
            r.inv(),
            r.spec_namespace_count() == namespaces,
            forall|ns: int| #[trigger] r.contents(ns) == Map::<Seq<u8>, Seq<u8>>::empty(),
    {
        let mut spaces: Vec<Vec<(Vec<u8>, Vec<u8>)>> = Vec::new();
        while spaces.len() < namespaces
            invariant
                spaces@.len() <= namespaces,
                forall|k: int| 0 <= k < spaces@.len() ==> (#[trigger] spaces@[k])@.len() == 0,
            decreases namespaces - spaces@.len(),
        {
            spaces.push(Vec::new());
        }
        let r = MemStore { spaces };
        proof {
            assert forall|ns: int| #[trigger] r.contents(ns) == Map::<Seq<u8>, Seq<u8>>::empty() by {
                if 0 <= ns < r.spaces@.len() {
                    assert(r.space_view(ns).len() == 0);
                    assert(assoc_map(r.space_view(ns)) =~= Map::<Seq<u8>, Seq<u8>>::empty());
                }
            }
        }
        r
    }
}

/// Finds the first position whose key is at or above `key`; reports
/// whether the key at that position equals `key`.
fn find_position(space: &Vec<(Vec<u8>, Vec<u8>)>, key: &Vec<u8>) -> (r: (usize, bool))
    requires
        sorted_strict(entries_view(space@)),
    ensures
        r.0 <= space@.len(),
        forall|j: int| 0 <= j < r.0 ==> lex_lt((#[trigger] entries_view(space@)[j]).0, key@),
        r.1 ==> r.0 < space@.len() && entries_view(space@)[r.0 as int].0 == key@,
        !r.1 && r.0 < space@.len() ==> lex_lt(key@, entries_view(space@)[r.0 as int].0),
{
    let ghost s = entries_view(space@);
    let mut pos: usize = 0;
    while pos < space.len()
        invariant
            pos <= space@.len(),
            s == entries_view(space@),
            forall|j: int| 0 <= j < pos ==> lex_lt((#[trigger] s[j]).0, key@),
        decreases space@.len() - pos,
    {
        let cmp = lex_compare(&space[pos].0, key);
        if cmp == 0 {
            return (pos, true);
        }
        if cmp > 0 {
            return (pos, false);
        }
        pos += 1;
    }
    (pos, false)
}

impl ReadHandle for MemStore {
    closed spec fn inv(&self) -> bool {
        forall|n: int| 0 <= n < self.spaces@.len() ==> sorted_strict(#[trigger] self.space_view(n))
    }

    closed spec fn contents(&self, ns: int) -> Map<Seq<u8>, Seq<u8>> {
        if 0 <= ns < self.spaces@.len() {
            assoc_map(self.space_view(ns))
        } else {
            Map::empty()
        }
    }

    fn get(&self, ns: usize, key: &Vec<u8>) -> (r: Result<Option<Vec<u8>>, StoreError>)
        ensures
            r is Ok,
    {
        if ns >= self.spaces.len() {
            return Ok(None);
        }
        let ghost s = self.space_view(ns as int);
        let (pos, eq) = find_position(&self.spaces[ns], key);
        if eq {
            let v = clone_bytes(&self.spaces[ns][pos].1);
            proof {
                lemma_assoc_get_present(s, pos as int);
                assert(s[pos as int].1 == v@);
            }
            Ok(Some(v))
        } else {
            proof {
                assert forall|i: int| 0 <= i < s.len() implies (#[trigger] s[i]).0 != key@ by {
                    if i < pos as int {
                        assert(lex_lt(s[i].0, key@));
                    } else if i == pos as int {
                        assert(lex_lt(key@, s[i].0));
                    } else {
                        assert(lex_lt(key@, s[pos as int].0));
                        assert(lex_lt(s[pos as int].0, s[i].0));
                        lemma_lex_lt_trans(key@, s[pos as int].0, s[i].0);
                    }
                }
                lemma_assoc_get_absent(s, key@);
            }
            Ok(None)
        }
    }

    fn scan_from(&self, ns: usize, start: &Vec<u8>) -> (r: Result<
        Vec<(Vec<u8>, Vec<u8>)>,
        StoreError,
    >)
        ensures
            r is Ok,
    {
        let mut out: Vec<(Vec<u8>, Vec<u8>)> = Vec::new();
        if ns >= self.spaces.len() {
            proof {
                assert(entries_view(out@).len() == 0);
            }
            return Ok(out);
        }
        let ghost s = self.space_view(ns as int);
        let ghost m = self.contents(ns as int);
        let space = &self.spaces[ns];
        let ghost mut idxs: Seq<int> = Seq::empty();
        let mut i: usize = 0;
        while i < space.len()
            invariant
                i <= space@.len(),
                s == entries_view(space@),
                sorted_strict(s),
                entries_view(out@).len() == idxs.len(),
                forall|a: int| 0 <= a < idxs.len() ==> 0 <= #[trigger] idxs[a] < i,
                forall|a: int, b: int|
                    #![trigger idxs[a], idxs[b]]
                    0 <= a < b < idxs.len() ==> idxs[a] < idxs[b],
                forall|a: int|
                    0 <= a < idxs.len() ==> #[trigger] entries_view(out@)[a] == s[idxs[a]],
                forall|a: int| 0 <= a < idxs.len() ==> lex_le(start@, s[#[trigger] idxs[a]].0),
                forall|j: int|
                    0 <= j < i && lex_le(start@, (#[trigger] s[j]).0) ==> exists|a: int|
                        0 <= a < idxs.len() && #[trigger] idxs[a] == j,
            decreases space@.len() - i,
        {
            let cmp = lex_compare(start, &space[i].0);
            if cmp <= 0 {
                let ghost out_prev = out@;
                let ghost idxs_prev = idxs;
                let pair = (clone_bytes(&space[i].0), clone_bytes(&space[i].1));
                out.push(pair);
                proof {
                    idxs = idxs.push(i as int);
                    assert(idxs.len() == idxs_prev.len() + 1);
                    assert(idxs[idxs.len() - 1] == i as int);
                    assert(lex_le(start@, s[i as int].0)) by {
                        lemma_lex_le_total(start@, s[i as int].0);
                    }
                    assert forall|a: int| 0 <= a < idxs.len() implies #[trigger] entries_view(
                        out@,
                    )[a] == s[idxs[a]] by {
                        if a < idxs.len() - 1 {
                            assert(idxs[a] == idxs_prev[a]);
                            assert(out@[a] == out_prev[a]);
                            assert(entries_view(out_prev)[a] == s[idxs_prev[a]]);
                        } else {
                            assert(out@[a] == pair);
                        }
                    }
                    assert forall|j: int|
                        0 <= j < i + 1 && lex_le(start@, (#[trigger] s[j]).0) implies exists|a: int|
                        0 <= a < idxs.len() && #[trigger] idxs[a] == j by {
                        if j < i {
                            let a = choose|a: int|
                                0 <= a < idxs_prev.len() && #[trigger] idxs_prev[a] == j;
                            assert(idxs[a] == j);
                        } else {
                            assert(idxs[idxs.len() - 1] == j);
                        }
                    }
                }
            } else {
                proof {
                    assert(lex_lt(s[i as int].0, start@));
                    if lex_le(start@, s[i as int].0) {
                        lemma_lex_le_antisym(start@, s[i as int].0);
                    }
                }
            }
            i += 1;
        }
        proof {
            let ev = entries_view(out@);
            assert forall|a: int| 0 <= a < ev.len() implies m.contains_pair(
                (#[trigger] ev[a]).0,
                ev[a].1,
            ) by {
                let j = idxs[a];
                lemma_assoc_get_present(s, j);
            }
            assert forall|k: Seq<u8>| #[trigger] m.contains_key(k) && lex_le(start@, k) implies exists|a: int|
                0 <= a < ev.len() && (#[trigger] ev[a]).0 == k by {
                lemma_assoc_get_to_index(s, k);
                let j = choose|j: int| 0 <= j < s.len() && (#[trigger] s[j]).0 == k;
                let a = choose|a: int| 0 <= a < idxs.len() && #[trigger] idxs[a] == j;
                assert(ev[a].0 == k);
            }
            assert(scan_result_matches(m, start@, ev));
        }
        Ok(out)
    }
}

impl WriteHandle for MemStore {
    fn put(&mut self, ns: usize, key: &Vec<u8>, value: &Vec<u8>) -> (r: Result<(), StoreError>)
        ensures
            r is Ok <==> (ns as int) < old(self).spec_namespace_count(),
    {
        if ns >= self.spaces.len() {
            return Err(StoreError::StorageIo);
        }
        let ghost s = self.space_view(ns as int);
        let ghost old_spaces = self.spaces@;
        let (pos, eq) = find_position(&self.spaces[ns], key);
        let pair = (clone_bytes(key), clone_bytes(value));
        let space = vec_index_mut(&mut self.spaces, ns);
        if eq {
            // Replace the old occurrence in place: drop it, then put the
            // fresh pair at the same position.
            space.remove(pos);
            space.insert(pos, pair);
            proof {
                let mid = old_spaces[ns as int]@.remove(pos as int);
                lemma_entries_view_remove(old_spaces[ns as int]@, pos as int);
                lemma_entries_view_insert(mid, pos as int, pair);
                let sm = entries_view(mid);
                let s2 = entries_view(space@);
                assert(sm =~= s.remove(pos as int));
                assert(s2 =~= sm.insert(pos as int, (key@, value@)));
                s.remove_ensures(pos as int);
                assert(s2 =~= s.update(pos as int, (key@, value@))) by {
                    sm.insert_ensures(pos as int, (key@, value@));
                    assert forall|j: int| 0 <= j < s2.len() implies s2[j] == s.update(
                        pos as int,
                        (key@, value@),
                    )[j] by {
                        if j < pos as int {
                            assert(s2[j] == sm[j]);
                            assert(sm[j] == s[j]);
                        } else if j == pos as int {
                            assert(s2[j] == (key@, value@));
                        } else {
                            assert(s2[j] == sm[j - 1]);
                            assert(sm[j - 1] == s[j]);
                        }
                    }
                }
                assert(s[pos as int].0 == key@);
                assert forall|j: int| 0 <= j < pos as int implies (#[trigger] s[j]).0 != s[
                    pos as int
                ].0 by {
                    assert(lex_lt(s[j].0, key@));
                }
                assert forall|q: Seq<u8>| true implies #[trigger] assoc_get(s2, q) == (if q == key@ {
                    Some(value@)
                } else {
                    assoc_get(s, q)
                }) by {
                    lemma_assoc_get_update(s, pos as int, value@, q);
                    assert(s.update(pos as int, (s[pos as int].0, value@)) =~= s.update(
                        pos as int,
                        (key@, value@),
                    ));
                }
                lemma_sorted_update(s, pos as int, value@);
                assert(sorted_strict(s.update(pos as int, (s[pos as int].0, value@))));
                assert(s.update(pos as int, (s[pos as int].0, value@)) =~= s.update(
                    pos as int,
                    (key@, value@),
                ));
                assert(sorted_strict(s2));
                assert(assoc_map(s2) =~= assoc_map(s).insert(key@, value@));
            }
        } else {
            space.insert(pos, pair);
            proof {
                lemma_entries_view_insert(old_spaces[ns as int]@, pos as int, pair);
                let s2 = entries_view(space@);
                assert(s2 =~= s.insert(pos as int, (key@, value@)));
                assert forall|j: int| 0 <= j < pos as int implies (#[trigger] s[j]).0 != key@ by {
                    assert(lex_lt(s[j].0, key@));
                }
                assert forall|q: Seq<u8>| true implies #[trigger] assoc_get(s2, q) == (if q == key@ {
                    Some(value@)
                } else {
                    assoc_get(s, q)
                }) by {
                    lemma_assoc_get_insert(s, pos as int, key@, value@, q);
                }
                assert forall|j: int| pos as int <= j < s.len() implies lex_lt(
                    key@,
                    (#[trigger] s[j]).0,
                ) by {
                    if j > pos as int {
                        lemma_lex_lt_trans(key@, s[pos as int].0, s[j].0);
                    }
                }
                lemma_sorted_insert(s, pos as int, key@, value@);
                assert(sorted_strict(s2));
                assert(assoc_map(s2) =~= assoc_map(s).insert(key@, value@));
            }
        }
        proof {
            assert(self.spaces@.len() == old_spaces.len());
            assert(self.spaces@[ns as int]@.len() == entries_view(self.spaces@[ns as int]@).len());
            assert(sorted_strict(entries_view(self.spaces@[ns as int]@)));
            assert(assoc_map(entries_view(self.spaces@[ns as int]@)) == assoc_map(s).insert(
                key@,
                value@,
            ));
            assert(self.contents(ns as int) == old(self).contents(ns as int).insert(key@, value@));
            assert forall|j: int| j != ns as int implies #[trigger] self.contents(j) == old(
                self,
            ).contents(j) by {
                if 0 <= j < self.spaces@.len() {
                    assert(self.spaces@[j] == old_spaces[j]);
                }
            }
            assert forall|n: int| 0 <= n < self.spaces@.len() implies sorted_strict(
                #[trigger] self.space_view(n),
            ) by {
                if n != ns as int {
                    assert(self.spaces@[n] == old_spaces[n]);
                    assert(sorted_strict(old(self).space_view(n)));
                }
            }
        }
        Ok(())
    }

    fn delete(&mut self, ns: usize, key: &Vec<u8>) -> (r: Result<(), StoreError>)
        ensures
            r is Ok,
    {
        if ns >= self.spaces.len() {
            proof {
                assert(self.contents(ns as int) =~= self.contents(ns as int).remove(key@));
            }
            return Ok(());
        }
        let ghost s = self.space_view(ns as int);
        let ghost old_spaces = self.spaces@;
        let (pos, eq) = find_position(&self.spaces[ns], key);
        if !eq {
            proof {
                assert forall|i: int| 0 <= i < s.len() implies (#[trigger] s[i]).0 != key@ by {
                    if i < pos as int {
                    } else if i == pos as int {
                    } else {
                        lemma_lex_lt_trans(key@, s[pos as int].0, s[i].0);
                    }
                }
                lemma_assoc_get_absent(s, key@);
                assert(self.contents(ns as int) =~= self.contents(ns as int).remove(key@));
            }
            return Ok(());
        }
        let space = vec_index_mut(&mut self.spaces, ns);
        space.remove(pos);
        proof {
            lemma_entries_view_remove(old_spaces[ns as int]@, pos as int);
            let s2 = entries_view(space@);
            assert(s2 =~= s.remove(pos as int));
            assert forall|j: int| 0 <= j < s.len() && j != pos as int implies (#[trigger] s[j]).0
                != s[pos as int].0 by {
                if j < pos as int {
                    assert(lex_lt(s[j].0, key@));
                } else {
                    assert(lex_lt(s[pos as int].0, s[j].0));
                }
            }
            assert forall|q: Seq<u8>| true implies #[trigger] assoc_get(s2, q) == (if q == key@ {
                None::<Seq<u8>>
            } else {
                assoc_get(s, q)
            }) by {
                lemma_assoc_get_remove(s, pos as int, q);
            }
            lemma_sorted_remove(s, pos as int);
            assert(sorted_strict(s2));
            assert(assoc_map(s2) =~= assoc_map(s).remove(key@));
        }
        proof {
            assert(self.spaces@.len() == old_spaces.len());
            assert(sorted_strict(entries_view(self.spaces@[ns as int]@)));
            assert(assoc_map(entries_view(self.spaces@[ns as int]@)) == assoc_map(s).remove(key@));
            assert(self.contents(ns as int) == old(self).contents(ns as int).remove(key@));
            assert forall|j: int| j != ns as int implies #[trigger] self.contents(j) == old(
                self,
            ).contents(j) by {
                if 0 <= j < self.spaces@.len() {
                    assert(self.spaces@[j] == old_spaces[j]);
                }
            }
            assert forall|n: int| 0 <= n < self.spaces@.len() implies sorted_strict(
                #[trigger] self.space_view(n),
            ) by {
                if n != ns as int {
                    assert(self.spaces@[n] == old_spaces[n]);
                    assert(sorted_strict(old(self).space_view(n)));
                }
            }
        }
        Ok(())
    }
}

} // verus!
