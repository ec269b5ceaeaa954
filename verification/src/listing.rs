//! Sequences of `(key, value)` in strictly ascending key order: lookup,
//! pages of a listing, and what holds of a listing that is resumed.

use crate::byte_order::{bytes_lt, lemma_lt_push, lemma_lt_transitive, lemma_trichotomy};
use vstd::prelude::*;

verus! {

/// Keys strictly ascending, hence no key twice.
pub open spec fn sorted<V>(s: Seq<(Seq<u8>, V)>) -> bool {
    forall|i: int, j: int| 0 <= i < j < s.len() ==> bytes_lt(#[trigger] s[i].0, #[trigger] s[j].0)
}

/// Some entry of `s` has key `k`.
pub open spec fn has_key<V>(s: Seq<(Seq<u8>, V)>, k: Seq<u8>) -> bool {
    exists|i: int| 0 <= i < s.len() && (#[trigger] s[i]).0 == k
}

/// The value stored under `k`, if any.
pub open spec fn lookup<V>(s: Seq<(Seq<u8>, V)>, k: Seq<u8>) -> Option<V> {
    if has_key(s, k) {
        Some(s[choose|i: int| 0 <= i < s.len() && (#[trigger] s[i]).0 == k].1)
    } else {
        None
    }
}

/// Index of the first entry at or after `from` whose key sorts strictly
/// after `bound`; the length where there is none.
pub open spec fn first_after<V>(s: Seq<(Seq<u8>, V)>, bound: Seq<u8>, from: int) -> int
    decreases s.len() - from,
{
    if 0 <= from < s.len() && !bytes_lt(bound, s[from].0) {
        first_after(s, bound, from + 1)
    } else {
        from
    }
}

/// Index at which a listing with the exclusive lower bound `bound` starts.
pub open spec fn listing_start<V>(s: Seq<(Seq<u8>, V)>, bound: Option<Seq<u8>>) -> int {
    match bound {
        None => 0,
        Some(b) => first_after(s, b, 0),
    }
}

/// The entries strictly after `bound` in stored order, at most `limit` of
/// them.
pub open spec fn page_of<V>(s: Seq<(Seq<u8>, V)>, bound: Option<Seq<u8>>, limit: nat) -> Seq<
    (Seq<u8>, V),
> {
    let start = listing_start(s, bound);
    if start + limit <= s.len() {
        s.subrange(start, start + limit)
    } else {
        s.subrange(start, s.len() as int)
    }
}

/// `k` sorts strictly after `bound`, where there is one.
pub open spec fn beyond(bound: Option<Seq<u8>>, k: Seq<u8>) -> bool {
    bound is Some ==> bytes_lt(bound->Some_0, k)
}

/// The key `k` would come up before a page is full: it sorts strictly
/// after `bound`, and fewer than `limit` entries of `s` lie between the
/// bound and it.
pub open spec fn blocks<V>(
    s: Seq<(Seq<u8>, V)>,
    bound: Option<Seq<u8>>,
    limit: nat,
    k: Seq<u8>,
) -> bool {
    let page = page_of(s, bound, limit);
    &&& limit > 0
    &&& beyond(bound, k)
    &&& (page.len() < limit || bytes_lt(k, page.last().0))
}

/// Some key of `unread` would come up before the page of `s` after `bound`
/// is full.
pub open spec fn listing_blocked<V>(
    s: Seq<(Seq<u8>, V)>,
    unread: Set<Seq<u8>>,
    bound: Option<Seq<u8>>,
    limit: nat,
) -> bool {
    exists|k: Seq<u8>| #[trigger] unread.contains(k) && blocks(s, bound, limit, k)
}

/// In a sorted sequence the entry at index `i` is the one that `lookup`
/// finds under its key.
pub proof fn lemma_lookup_at<V>(s: Seq<(Seq<u8>, V)>, i: int)
    requires
        sorted(s),
        0 <= i < s.len(),
    ensures
        has_key(s, s[i].0),
        lookup(s, s[i].0) == Some(s[i].1),
{
    let k = s[i].0;
    assert(has_key(s, k));
    let c = choose|c: int| 0 <= c < s.len() && (#[trigger] s[c]).0 == k;
    lemma_trichotomy(k, k);
    if c < i {
        assert(bytes_lt(s[c].0, s[i].0));
    } else if i < c {
        assert(bytes_lt(s[i].0, s[c].0));
    }
}

/// What `first_after` finds: up to it no key sorts after the bound, and
/// in a sorted sequence every key from it on does.
pub proof fn lemma_first_after<V>(s: Seq<(Seq<u8>, V)>, bound: Seq<u8>, from: int)
    requires
        sorted(s),
        0 <= from <= s.len(),
        forall|j: int| 0 <= j < from ==> !bytes_lt(bound, (#[trigger] s[j]).0),
    ensures
        from <= first_after(s, bound, from) <= s.len(),
        forall|j: int|
            0 <= j < first_after(s, bound, from) ==> !bytes_lt(bound, (#[trigger] s[j]).0),
        forall|j: int|
            first_after(s, bound, from) <= j < s.len() ==> bytes_lt(bound, (#[trigger] s[j]).0),
    decreases s.len() - from,
{
    if from < s.len() && !bytes_lt(bound, s[from].0) {
        lemma_first_after(s, bound, from + 1);
    } else if from < s.len() {
        assert forall|j: int| from <= j < s.len() implies bytes_lt(bound, (#[trigger] s[j]).0) by {
            if from < j {
                assert(bytes_lt(s[from].0, s[j].0));
                lemma_lt_transitive(bound, s[from].0, s[j].0);
            }
        }
    }
}

/// The view of an optional bound.
pub open spec fn bound_view(bound: Option<Vec<u8>>) -> Option<Seq<u8>> {
    match bound {
        None => None,
        Some(b) => Some(b@),
    }
}

/// A page of a sorted table is itself in strictly ascending key order, and
/// every key on it sorts strictly after the bound.
pub proof fn lemma_page_in_order<V>(s: Seq<(Seq<u8>, V)>, bound: Option<Seq<u8>>, limit: nat)
    requires
        sorted(s),
    ensures
        sorted(page_of(s, bound, limit)),
        page_of(s, bound, limit).len() <= limit,
        bound is Some ==> forall|i: int|
            0 <= i < page_of(s, bound, limit).len() ==> bytes_lt(
                bound->Some_0,
                (#[trigger] page_of(s, bound, limit)[i]).0,
            ),
{
    let start = listing_start(s, bound);
    let page = page_of(s, bound, limit);
    if bound is Some {
        lemma_first_after(s, bound->Some_0, 0);
    }
    assert forall|i: int, j: int| 0 <= i < j < page.len() implies bytes_lt(
        #[trigger] page[i].0,
        #[trigger] page[j].0,
    ) by {
        assert(page[i] == s[start + i]);
        assert(page[j] == s[start + j]);
    }
    if bound is Some {
        assert forall|i: int| 0 <= i < page.len() implies bytes_lt(
            bound->Some_0,
            (#[trigger] page[i]).0,
        ) by {
            assert(page[i] == s[start + i]);
        }
    }
}

/// No key of `s` lies in the gap that a cursor made of `key` skips besides
/// `key` itself: strictly after `key`, and not after `key` followed by one
/// byte of value 1.
pub open spec fn gap_is_empty<V>(s: Seq<(Seq<u8>, V)>, key: Seq<u8>) -> bool {
    forall|j: int|
        0 <= j < s.len() && bytes_lt(key, (#[trigger] s[j]).0) ==> bytes_lt(key.push(1u8), s[j].0)
}

/// Resuming after the last entry of a page continues the listing where the
/// page ended: the page and the next one, which starts at the last key
/// followed by one byte of value 1, are together the longer page from the
/// first bound, and every key of the first sorts strictly before every key
/// of the second. This holds where no stored key lies in the gap that the
/// cursor skips.
pub proof fn lemma_next_page<V>(
    s: Seq<(Seq<u8>, V)>,
    bound: Option<Seq<u8>>,
    limit: nat,
    next_limit: nat,
)
    requires
        sorted(s),
        page_of(s, bound, limit).len() > 0,
        gap_is_empty(s, page_of(s, bound, limit).last().0),
    ensures
        page_of(s, bound, limit) + page_of(
            s,
            Some(page_of(s, bound, limit).last().0.push(1u8)),
            next_limit,
        ) == page_of(s, bound, page_of(s, bound, limit).len() + next_limit),
        forall|i: int, j: int|
            0 <= i < page_of(s, bound, limit).len() && 0 <= j < page_of(
                s,
                Some(page_of(s, bound, limit).last().0.push(1u8)),
                next_limit,
            ).len() ==> bytes_lt(
                (#[trigger] page_of(s, bound, limit)[i]).0,
                (#[trigger] page_of(
                    s,
                    Some(page_of(s, bound, limit).last().0.push(1u8)),
                    next_limit,
                )[j]).0,
            ),
{
    let start = listing_start(s, bound);
    let first = page_of(s, bound, limit);
    let end = start + first.len();
    let last_key = first.last().0;
    let resume = last_key.push(1u8);
    if bound is Some {
        lemma_first_after(s, bound->Some_0, 0);
    }
    assert(first.last() == s[end - 1]);
    lemma_first_after(s, resume, 0);
    lemma_lt_push(last_key, 1u8);
    let next_start = first_after(s, resume, 0);
    if next_start < end {
        // an entry of the first page would sort after the resume bound
        assert(bytes_lt(resume, s[next_start].0));
        lemma_lt_transitive(last_key, resume, s[next_start].0);
        lemma_trichotomy(last_key, s[next_start].0);
        if next_start < end - 1 {
            assert(bytes_lt(s[next_start].0, s[end - 1].0));
        }
    }
    if next_start > end {
        assert(bytes_lt(s[end - 1].0, s[end].0));
        assert(bytes_lt(resume, s[end].0));
    }
    assert(next_start == end);
    let second = page_of(s, Some(resume), next_limit);
    let both = page_of(s, bound, first.len() + next_limit);
    assert(first + second =~= both);
    assert forall|i: int, j: int| 0 <= i < first.len() && 0 <= j < second.len() implies bytes_lt(
        (#[trigger] first[i]).0,
        (#[trigger] second[j]).0,
    ) by {
        assert(first[i] == s[start + i]);
        assert(second[j] == s[end + j]);
    }
}

} // verus!
