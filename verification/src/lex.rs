//! Lexicographic order on byte strings.
//!
//! The storage engine iterates keys in ascending lexicographic order, and
//! the keys of one tree are exactly the keys carrying that tree's byte
//! prefix. This module defines the order and the prefix relation, proves
//! the order's laws, and proves the fact the bulk reset relies on: under
//! this order, the keys sharing a prefix are contiguous.

use vstd::prelude::*;

verus! {

/// `a` is at most `b` in lexicographic order.
pub open spec fn lex_le(a: Seq<u8>, b: Seq<u8>) -> bool
    decreases a.len(),
{
    if a.len() == 0 {
        true
    } else if b.len() == 0 {
        false
    } else if a[0] < b[0] {
        true
    } else if a[0] > b[0] {
        false
    } else {
        lex_le(a.drop_first(), b.drop_first())
    }
}

/// `a` is strictly below `b` in lexicographic order.
pub open spec fn lex_lt(a: Seq<u8>, b: Seq<u8>) -> bool {
    lex_le(a, b) && a != b
}

/// `p` is a prefix of `k`.
pub open spec fn is_prefix_of(p: Seq<u8>, k: Seq<u8>) -> bool {
    p.len() <= k.len() && k.subrange(0, p.len() as int) == p
}

/// The order is total.
pub proof fn lemma_lex_le_total(a: Seq<u8>, b: Seq<u8>)
    ensures
        lex_le(a, b) || lex_le(b, a),
    decreases a.len(),
{
    if a.len() == 0 {
    } else if b.len() == 0 {
    } else if a[0] == b[0] {
        lemma_lex_le_total(a.drop_first(), b.drop_first());
    }
}

/// The order is antisymmetric.
pub proof fn lemma_lex_le_antisym(a: Seq<u8>, b: Seq<u8>)
    requires
        lex_le(a, b),
        lex_le(b, a),
    ensures
        a == b,
    decreases a.len(),
{
    if a.len() == 0 {
        assert(b.len() == 0);
        assert(a =~= b);
    } else {
        assert(b.len() != 0);
        assert(a[0] == b[0]);
        lemma_lex_le_antisym(a.drop_first(), b.drop_first());
        assert(a =~= b) by {
            assert(a.len() == b.len());
            assert(forall|i: int| #![auto]
                1 <= i < a.len() ==> a[i] == a.drop_first()[i - 1] && b[i] == b.drop_first()[i
                    - 1]);
        }
    }
}

/// The order is transitive.
pub proof fn lemma_lex_le_trans(a: Seq<u8>, b: Seq<u8>, c: Seq<u8>)
    requires
        lex_le(a, b),
        lex_le(b, c),
    ensures
        lex_le(a, c),
    decreases a.len(),
{
    if a.len() == 0 {
    } else {
        assert(b.len() != 0);
        assert(c.len() != 0);
        if a[0] == b[0] && b[0] == c[0] {
            lemma_lex_le_trans(a.drop_first(), b.drop_first(), c.drop_first());
        }
    }
}

/// Comparing two strings that agree on their first `i` bytes reduces to
/// comparing what remains of each.
pub proof fn lemma_lex_le_skip(a: Seq<u8>, b: Seq<u8>, i: int)
    requires
        0 <= i <= a.len(),
        i <= b.len(),
        a.subrange(0, i) == b.subrange(0, i),
    ensures
        lex_le(a, b) == lex_le(a.skip(i), b.skip(i)),
    decreases i,
{
    if i == 0 {
        assert(a.skip(0) =~= a);
        assert(b.skip(0) =~= b);
    } else {
        assert(a[0] == b[0]) by {
            assert(a.subrange(0, i)[0] == a[0]);
            assert(b.subrange(0, i)[0] == b[0]);
        }
        let a1 = a.drop_first();
        let b1 = b.drop_first();
        let im1: int = i - 1;
        assert forall|j: int| 0 <= j < im1 implies a1.subrange(0, im1)[j] == b1.subrange(
            0,
            im1,
        )[j] by {
            assert(a1.subrange(0, im1)[j] == a[j + 1]);
            assert(a.subrange(0, i)[j + 1] == a[j + 1]);
            assert(b1.subrange(0, im1)[j] == b[j + 1]);
            assert(b.subrange(0, i)[j + 1] == b[j + 1]);
        }
        assert(a1.subrange(0, im1) =~= b1.subrange(0, im1));
        lemma_lex_le_skip(a.drop_first(), b.drop_first(), i - 1);
        assert(a.drop_first().skip(i - 1) =~= a.skip(i));
        assert(b.drop_first().skip(i - 1) =~= b.skip(i));
    }
}

/// A prefix is at most any string it prefixes.
pub proof fn lemma_prefix_lex_le(p: Seq<u8>, k: Seq<u8>)
    requires
        is_prefix_of(p, k),
    ensures
        lex_le(p, k),
{
    assert(p.subrange(0, p.len() as int) =~= p);
    lemma_lex_le_skip(p, k, p.len() as int);
    assert(p.skip(p.len() as int).len() == 0);
}

/// Under the lexicographic order, the strings with a given prefix are
/// contiguous: anything between the prefix itself and a string carrying
/// the prefix carries the prefix too.
pub proof fn lemma_prefix_interval(p: Seq<u8>, k1: Seq<u8>, k2: Seq<u8>)
    requires
        lex_le(p, k1),
        lex_le(k1, k2),
        is_prefix_of(p, k2),
    ensures
        is_prefix_of(p, k1),
    decreases p.len(),
{
    if p.len() == 0 {
        assert(k1.subrange(0, 0) =~= p);
    } else {
        assert(k1.len() != 0);
        assert(k2.len() != 0);
        assert(p[0] == k2[0]) by {
            assert(k2.subrange(0, p.len() as int)[0] == k2[0]);
        }
        // Heads are forced equal: p[0] <= k1[0] <= k2[0] == p[0].
        assert(p[0] == k1[0]);
        let p1 = p.drop_first();
        let k11 = k1.drop_first();
        let k21 = k2.drop_first();
        assert forall|j: int| 0 <= j < p1.len() implies k21.subrange(0, p1.len() as int)[j]
            == p1[j] by {
            assert(k21.subrange(0, p1.len() as int)[j] == k2[j + 1]);
            assert(k2.subrange(0, p.len() as int)[j + 1] == k2[j + 1]);
            assert(p1[j] == p[j + 1]);
        }
        assert(k21.subrange(0, p1.len() as int) =~= p1);
        lemma_prefix_interval(p1, k11, k21);
        assert(p.len() <= k1.len());
        assert forall|j: int| 0 <= j < p.len() implies k1.subrange(0, p.len() as int)[j]
            == p[j] by {
            if j == 0 {
                assert(k1.subrange(0, p.len() as int)[0] == k1[0]);
            } else {
                assert(k1.subrange(0, p.len() as int)[j] == k1[j]);
                assert(k11.subrange(0, p1.len() as int)[j - 1] == k11[j - 1]);
                assert(k11[j - 1] == k1[j]);
                assert(k11.subrange(0, p1.len() as int) == p1);
                assert(p1[j - 1] == p[j]);
            }
        }
        assert(k1.subrange(0, p.len() as int) =~= p);
    }
}

/// Three-way comparison of two byte vectors: negative for strictly below,
/// zero for equal, positive for strictly above.
pub fn lex_compare(a: &Vec<u8>, b: &Vec<u8>) -> (r: i8)
    ensures
        r == -1i8 || r == 0i8 || r == 1i8,
        (r == -1i8) <==> lex_lt(a@, b@),
        (r == 0i8) <==> a@ == b@,
        (r == 1i8) <==> lex_lt(b@, a@),
{
    let a_len = a.len();
    let b_len = b.len();
    let min_len = if a_len < b_len {
        a_len
    } else {
        b_len
    };
    let mut i: usize = 0;
    while i < min_len
        invariant
            0 <= i <= min_len,
            min_len <= a@.len(),
            min_len <= b@.len(),
            min_len == if a@.len() < b@.len() {
                a@.len()
            } else {
                b@.len()
            },
            a@.subrange(0, i as int) =~= b@.subrange(0, i as int),
        decreases min_len - i,
    {
        let x = a[i];
        let y = b[i];
        if x < y {
            proof {
                lemma_lex_le_skip(a@, b@, i as int);
                assert(lex_le(a@.skip(i as int), b@.skip(i as int))) by {
                    assert(a@.skip(i as int)[0] == a@[i as int]);
                    assert(b@.skip(i as int)[0] == b@[i as int]);
                }
                assert(a@ != b@) by {
                    assert(a@[i as int] != b@[i as int]);
                }
                lemma_lex_le_total(a@, b@);
                if lex_le(b@, a@) {
                    lemma_lex_le_antisym(a@, b@);
                }
            }
            return -1;
        }
        if x > y {
            proof {
                lemma_lex_le_skip(b@, a@, i as int);
                assert(lex_le(b@.skip(i as int), a@.skip(i as int))) by {
                    assert(a@.skip(i as int)[0] == a@[i as int]);
                    assert(b@.skip(i as int)[0] == b@[i as int]);
                }
                assert(a@ != b@) by {
                    assert(a@[i as int] != b@[i as int]);
                }
                lemma_lex_le_total(a@, b@);
                if lex_le(a@, b@) {
                    lemma_lex_le_antisym(a@, b@);
                }
            }
            return 1;
        }
        proof {
            assert(a@.subrange(0, i + 1) =~= b@.subrange(0, i + 1)) by {
                assert(forall|j: int| #![auto]
                    0 <= j < i ==> a@.subrange(0, i + 1)[j] == a@.subrange(0, i as int)[j]
                        && b@.subrange(0, i + 1)[j] == b@.subrange(0, i as int)[j]);
                assert(a@.subrange(0, i + 1)[i as int] == a@[i as int]);
                assert(b@.subrange(0, i + 1)[i as int] == b@[i as int]);
            }
        }
        i += 1;
    }
    proof {
        assert(a@.subrange(0, min_len as int) =~= b@.subrange(0, min_len as int));
        lemma_lex_le_skip(a@, b@, min_len as int);
        lemma_lex_le_skip(b@, a@, min_len as int);
    }
    if a_len == b_len {
        proof {
            assert(a@ =~= b@) by {
                assert(forall|j: int| #![auto]
                    0 <= j < a@.len() ==> a@[j] == a@.subrange(0, min_len as int)[j] && b@[j]
                        == b@.subrange(0, min_len as int)[j]);
            }
        }
        0
    } else if a_len < b_len {
        proof {
            assert(a@.skip(min_len as int).len() == 0);
            assert(lex_le(a@, b@));
            assert(a@.len() != b@.len());
            if lex_le(b@, a@) {
                lemma_lex_le_antisym(a@, b@);
            }
        }
        -1
    } else {
        proof {
            assert(b@.skip(min_len as int).len() == 0);
            assert(a@.skip(min_len as int).len() > 0);
            assert(!lex_le(a@, b@));
            assert(lex_le(b@, a@));
            assert(a@.len() != b@.len());
        }
        1
    }
}

/// Whether `p` is a prefix of `k`.
pub fn has_prefix(k: &Vec<u8>, p: &Vec<u8>) -> (r: bool)
    ensures
        r == is_prefix_of(p@, k@),
{
    if p.len() > k.len() {
        return false;
    }
    let mut i: usize = 0;
    while i < p.len()
        invariant
            0 <= i <= p@.len(),
            p@.len() <= k@.len(),
            forall|j: int| 0 <= j < i ==> k@[j] == p@[j],
        decreases p@.len() - i,
    {
        if k[i] != p[i] {
            proof {
                assert(k@.subrange(0, p@.len() as int)[i as int] == k@[i as int]);
            }
            return false;
        }
        i += 1;
    }
    proof {
        assert(k@.subrange(0, p@.len() as int) =~= p@);
    }
    true
}

} // verus!
