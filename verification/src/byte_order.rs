//! Lexicographic order on byte strings.

use vstd::prelude::*;

verus! {

/// Outcome of comparing two byte strings.
#[derive(Debug, Clone, Copy, PartialEq, Eq, Structural)]
pub enum ByteOrder {
    Less,
    Equal,
    Greater,
}

/// First index at or after `from` where `a` and `b` stop agreeing: either
/// one of them ends there or their bytes differ.
pub open spec fn first_mismatch(a: Seq<u8>, b: Seq<u8>, from: int) -> int
    decreases a.len() - from,
{
    if 0 <= from < a.len() && from < b.len() && a[from] == b[from] {
        first_mismatch(a, b, from + 1)
    } else {
        from
    }
}

/// `a` sorts strictly before `b`: at the first mismatch `a` has ended and
/// `b` has not, or `a` holds the smaller byte.
pub open spec fn bytes_lt(a: Seq<u8>, b: Seq<u8>) -> bool {
    let m = first_mismatch(a, b, 0);
    m < b.len() && (m == a.len() || a[m] < b[m])
}

/// The three-way comparison of `a` and `b`.
pub open spec fn order_of(a: Seq<u8>, b: Seq<u8>) -> ByteOrder {
    if a == b {
        ByteOrder::Equal
    } else if bytes_lt(a, b) {
        ByteOrder::Less
    } else {
        ByteOrder::Greater
    }
}

/// `p` is a leading part of `s` (possibly all of it).
pub open spec fn is_prefix(p: Seq<u8>, s: Seq<u8>) -> bool {
    p.len() <= s.len() && s.subrange(0, p.len() as int) == p
}

/// What `first_mismatch` finds: the two strings agree before it, and at it
/// one of them ends or they differ.
pub proof fn lemma_first_mismatch(a: Seq<u8>, b: Seq<u8>, from: int)
    requires
        0 <= from <= a.len(),
        from <= b.len(),
        forall|j: int| 0 <= j < from ==> a[j] == b[j],
    ensures
        from <= first_mismatch(a, b, from) <= a.len(),
        first_mismatch(a, b, from) <= b.len(),
        forall|j: int| 0 <= j < first_mismatch(a, b, from) ==> a[j] == b[j],
        first_mismatch(a, b, from) < a.len() && first_mismatch(a, b, from) < b.len() ==> a[first_mismatch(
            a,
            b,
            from,
        )] != b[first_mismatch(a, b, from)],
    decreases a.len() - from,
{
    if from < a.len() && from < b.len() && a[from] == b[from] {
        lemma_first_mismatch(a, b, from + 1);
    }
}

/// The first mismatch does not depend on the order of the arguments.
pub proof fn lemma_first_mismatch_symmetric(a: Seq<u8>, b: Seq<u8>)
    ensures
        first_mismatch(a, b, 0) == first_mismatch(b, a, 0),
{
    lemma_first_mismatch(a, b, 0);
    lemma_first_mismatch(b, a, 0);
    let m: int = first_mismatch(a, b, 0);
    let n: int = first_mismatch(b, a, 0);
    if m < n {
        assert(b[m] == a[m]);
    } else if n < m {
        assert(a[n] == b[n]);
    }
}

/// Of two byte strings exactly one holds: the first sorts before the
/// second, they are equal, or the second sorts before the first.
pub proof fn lemma_trichotomy(a: Seq<u8>, b: Seq<u8>)
    ensures
        bytes_lt(a, b) || a == b || bytes_lt(b, a),
        !(bytes_lt(a, b) && bytes_lt(b, a)),
        !(bytes_lt(a, b) && a == b),
{
    lemma_first_mismatch(a, b, 0);
    lemma_first_mismatch_symmetric(a, b);
    let m: int = first_mismatch(a, b, 0);
    if m == a.len() && m == b.len() {
        assert(a =~= b);
    }
}

/// The strict order is transitive.
pub proof fn lemma_lt_transitive(a: Seq<u8>, b: Seq<u8>, c: Seq<u8>)
    requires
        bytes_lt(a, b),
        bytes_lt(b, c),
    ensures
        bytes_lt(a, c),
{
    lemma_first_mismatch(a, b, 0);
    lemma_first_mismatch(b, c, 0);
    lemma_first_mismatch(a, c, 0);
    let m1: int = first_mismatch(a, b, 0);
    let m2: int = first_mismatch(b, c, 0);
    let m3: int = first_mismatch(a, c, 0);
    if m3 < m1 && m3 < m2 {
        assert(a[m3] == b[m3] && b[m3] == c[m3]);
    }
    if m1 < m3 && m1 < m2 {
        assert(a[m1] == c[m1] && b[m1] == c[m1]);
    }
    if m2 < m3 && m2 < m1 {
        assert(a[m2] == c[m2] && a[m2] == b[m2]);
    }
    if m1 < m3 && m1 == m2 {
        assert(a[m1] == c[m1]);
    }
}

/// A string sorts strictly before itself extended by one byte.
pub proof fn lemma_lt_push(a: Seq<u8>, x: u8)
    ensures
        bytes_lt(a, a.push(x)),
{
    lemma_first_mismatch(a, a.push(x), 0);
}

/// Compares two byte strings lexicographically.
pub fn compare_bytes(a: &[u8], b: &[u8]) -> (order: ByteOrder)
    ensures
        order == order_of(a@, b@),
{
    let mut i: usize = 0;
    while i < a.len() && i < b.len() && a[i] == b[i]
        invariant
            i <= a.len(),
            i <= b.len(),
            forall|j: int| 0 <= j < i ==> a@[j] == b@[j],
            first_mismatch(a@, b@, 0) == first_mismatch(a@, b@, i as int),
        decreases a.len() - i,
    {
        i += 1;
    }
    proof {
        lemma_first_mismatch(a@, b@, 0);
        lemma_trichotomy(a@, b@);
    }
    if i == a.len() {
        if i == b.len() {
            proof {
                assert(a@ =~= b@);
            }
            ByteOrder::Equal
        } else {
            ByteOrder::Less
        }
    } else if i == b.len() {
        ByteOrder::Greater
    } else if a[i] < b[i] {
        ByteOrder::Less
    } else {
        ByteOrder::Greater
    }
}

/// Appends the bytes of `src` to `dst`.
pub fn append_bytes(dst: &mut Vec<u8>, src: &[u8])
    ensures
        final(dst)@ == old(dst)@ + src@,
{
    let mut i: usize = 0;
    while i < src.len()
        invariant
            i <= src.len(),
            dst@ == old(dst)@ + src@.subrange(0, i as int),
        decreases src.len() - i,
    {
        dst.push(src[i]);
        i += 1;
        proof {
            assert(dst@ =~= old(dst)@ + src@.subrange(0, i as int));
        }
    }
    proof {
        assert(src@.subrange(0, i as int) =~= src@);
    }
}

/// A fresh vector holding the bytes of `src`.
pub fn copy_bytes(src: &[u8]) -> (copy: Vec<u8>)
    ensures
        copy@ == src@,
{
    let mut copy: Vec<u8> = Vec::new();
    append_bytes(&mut copy, src);
    proof {
        assert(copy@ =~= src@);
    }
    copy
}

} // verus!
