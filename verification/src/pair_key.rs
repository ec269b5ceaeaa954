//! Canonical keys for unordered pairs of asset identifiers.

use crate::asset::{AssetIdent, AssetInfoRaw};
use crate::byte_order::{
    append_bytes, bytes_lt, compare_bytes, is_prefix, lemma_trichotomy, ByteOrder,
};
use vstd::prelude::*;

verus! {

/// The canonical key of the unordered pair `{a, b}`: the two byte forms,
/// the smaller one first, joined without a separator.
pub open spec fn pair_key_of(a: AssetIdent, b: AssetIdent) -> Seq<u8> {
    if bytes_lt(b.encoding(), a.encoding()) {
        b.encoding() + a.encoding()
    } else {
        a.encoding() + b.encoding()
    }
}

/// The exclusive lower bound that resumes a listing after the pair
/// `{a, b}`: its key followed by one byte of value 1.
pub open spec fn range_start_of(a: AssetIdent, b: AssetIdent) -> Seq<u8> {
    pair_key_of(a, b).push(1u8)
}

/// `{a1, b1}` and `{a2, b2}` are the same unordered pair.
pub open spec fn same_unordered_pair(
    a1: AssetIdent,
    b1: AssetIdent,
    a2: AssetIdent,
    b2: AssetIdent,
) -> bool {
    (a1 == a2 && b1 == b2) || (a1 == b2 && b1 == a2)
}

/// Two identifiers cannot be mistaken for one another inside a key: they
/// are the same identifier, or neither byte form is a leading part of the
/// other.
pub open spec fn unambiguous(u: AssetIdent, v: AssetIdent) -> bool {
    u == v || (!is_prefix(u.encoding(), v.encoding()) && !is_prefix(v.encoding(), u.encoding()))
}

/// Derives the canonical key of a pair, whatever the order of its two
/// identifiers.
pub fn pair_key(asset_infos: &[AssetInfoRaw; 2]) -> (key: Vec<u8>)
    ensures
        key@ == pair_key_of(asset_infos[0]@, asset_infos[1]@),
{
    let first = asset_infos[0].as_bytes();
    let second = asset_infos[1].as_bytes();
    let mut key: Vec<u8> = Vec::new();
    proof {
        lemma_trichotomy(first@, second@);
    }
    match compare_bytes(first, second) {
        ByteOrder::Greater => {
            append_bytes(&mut key, second);
            append_bytes(&mut key, first);
        },
        _ => {
            append_bytes(&mut key, first);
            append_bytes(&mut key, second);
        },
    }
    proof {
        assert(key@ =~= pair_key_of(asset_infos[0]@, asset_infos[1]@));
    }
    key
}

/// The exclusive lower bound for a listing that resumes after
/// `start_after`; no bound where no cursor is given.
pub fn calc_range_start(start_after: Option<[AssetInfoRaw; 2]>) -> (start: Option<Vec<u8>>)
    ensures
        start_after is None ==> start is None,
        start_after is Some ==> start is Some && start->Some_0@ == range_start_of(
            start_after->Some_0[0]@,
            start_after->Some_0[1]@,
        ),
{
    match start_after {
        None => None,
        Some(asset_infos) => {
            let mut bound = pair_key(&asset_infos);
            bound.push(1u8);
            Some(bound)
        },
    }
}

/// The key of a pair does not depend on the order in which its two
/// identifiers are given.
pub proof fn lemma_pair_key_commutative(a: AssetIdent, b: AssetIdent)
    ensures
        pair_key_of(a, b) == pair_key_of(b, a),
{
    lemma_trichotomy(a.encoding(), b.encoding());
}

/// Two different unordered pairs have different keys, provided that no
/// identifier of one pair can be mistaken for an identifier of the other:
/// whenever two of them differ, neither byte form is a leading part of the
/// other.
pub proof fn lemma_pair_key_injective(
    a1: AssetIdent,
    b1: AssetIdent,
    a2: AssetIdent,
    b2: AssetIdent,
)
    requires
        unambiguous(a1, a2),
        unambiguous(a1, b2),
        unambiguous(b1, a2),
        unambiguous(b1, b2),
        !same_unordered_pair(a1, b1, a2, b2),
    ensures
        pair_key_of(a1, b1) != pair_key_of(a2, b2),
{
    let (x1, y1) = if bytes_lt(b1.encoding(), a1.encoding()) {
        (b1, a1)
    } else {
        (a1, b1)
    };
    let (x2, y2) = if bytes_lt(b2.encoding(), a2.encoding()) {
        (b2, a2)
    } else {
        (a2, b2)
    };
    if pair_key_of(a1, b1) == pair_key_of(a2, b2) {
        lemma_split_equal(x1.encoding(), y1.encoding(), x2.encoding(), y2.encoding());
        assert(x1 == x2);
        assert(y1.encoding() == y2.encoding());
        assert(is_prefix(y1.encoding(), y2.encoding())) by {
            assert(y2.encoding().subrange(0, y1.encoding().len() as int) =~= y1.encoding());
        }
        assert(y1 == y2);
    }
}

/// Where two concatenations are equal, one first part is a leading part
/// of the other; where the first parts are equal, so are the second parts.
pub proof fn lemma_split_equal(x1: Seq<u8>, y1: Seq<u8>, x2: Seq<u8>, y2: Seq<u8>)
    requires
        x1 + y1 == x2 + y2,
    ensures
        is_prefix(x1, x2) || is_prefix(x2, x1),
        x1 == x2 ==> y1 == y2,
{
    if x1.len() <= x2.len() {
        assert(x2.subrange(0, x1.len() as int) =~= x1) by {
            assert forall|j: int| 0 <= j < x1.len() implies x2[j] == x1[j] by {
                assert((x1 + y1)[j] == x1[j]);
                assert((x2 + y2)[j] == x2[j]);
            }
        }
    } else {
        assert(x1.subrange(0, x2.len() as int) =~= x2) by {
            assert forall|j: int| 0 <= j < x2.len() implies x1[j] == x2[j] by {
                assert((x1 + y1)[j] == x1[j]);
                assert((x2 + y2)[j] == x2[j]);
            }
        }
    }
    if x1 == x2 {
        assert(y1 =~= y2) by {
            assert(y1.len() == y2.len()) by {
                assert((x1 + y1).len() == x1.len() + y1.len());
                assert((x2 + y2).len() == x2.len() + y2.len());
            }
            assert forall|j: int| 0 <= j < y1.len() implies y1[j] == y2[j] by {
                assert((x1 + y1)[x1.len() + j] == y1[j]);
                assert((x2 + y2)[x2.len() + j] == y2[j]);
            }
        }
    }
}

/// Whatever a table holds under the key of a pair, it holds under the key
/// of the same pair given in the other order.
pub proof fn lemma_lookup_either_order<V>(s: Seq<(Seq<u8>, V)>, a: AssetIdent, b: AssetIdent)
    ensures
        crate::listing::lookup(s, pair_key_of(a, b)) == crate::listing::lookup(s, pair_key_of(b, a)),
        range_start_of(a, b) == range_start_of(b, a),
{
    lemma_pair_key_commutative(a, b);
}

} // verus!
