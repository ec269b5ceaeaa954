//! Stored state of the factory and the operations on its tables.

use crate::asset::{AssetInfoRaw, PairInfoRaw};
use crate::error::FactoryError;
use crate::listing::{
    gap_is_empty, lemma_first_after, lemma_next_page, listing_blocked, listing_start, page_of,
    sorted,
};
use crate::pair_key::{calc_range_start, range_start_of};
use crate::registry::{keyed, PairRegistry};
use vstd::prelude::*;

verus! {

/// Largest page that a listing returns.
pub const MAX_LIMIT: u32 = 30;

/// Page size where the caller names none.
pub const DEFAULT_LIMIT: u32 = 10;

/// Owner and the two contract templates.
#[derive(Debug, Clone, PartialEq, Eq)]
pub struct Config {
    pub owner: Vec<u8>,
    pub pair_code_id: u64,
    pub token_code_id: u64,
}

/// What is staged for a pair between the request to create its pool and
/// the acknowledgment.
#[derive(Debug, Clone, PartialEq, Eq)]
pub struct TmpPairInfo {
    pub pair_key: Vec<u8>,
    pub asset_infos: [AssetInfoRaw; 2],
    pub asset_decimals: [u8; 2],
}

/// The page size for a requested limit: 10 where none is given, and never
/// more than 30.
pub open spec fn page_limit_of(limit: Option<u32>) -> nat {
    match limit {
        None => 10,
        Some(n) => if n > 30 {
            30
        } else {
            n as nat
        },
    }
}

/// The exclusive lower bound that a cursor stands for.
pub open spec fn cursor_bound(start_after: Option<[AssetInfoRaw; 2]>) -> Option<Seq<u8>> {
    match start_after {
        None => None,
        Some(asset_infos) => Some(range_start_of(asset_infos[0]@, asset_infos[1]@)),
    }
}

/// The page size for a requested limit.
pub fn page_limit(limit: Option<u32>) -> (size: usize)
    ensures
        size == page_limit_of(limit),
{
    match limit {
        None => DEFAULT_LIMIT as usize,
        Some(n) => if n > MAX_LIMIT {
            MAX_LIMIT as usize
        } else {
            n as usize
        },
    }
}

/// One page of the registry in ascending key order: the records whose key
/// sorts strictly after the cursor's bound, at most the page size of them.
/// It fails, with `Storage`, exactly where a key that cannot be read comes
/// up after the bound before the page is full.
pub fn read_pairs<'a>(
    pairs: &'a PairRegistry,
    start_after: Option<[AssetInfoRaw; 2]>,
    limit: Option<u32>,
) -> (result: Result<Vec<&'a PairInfoRaw>, FactoryError>)
    requires
        pairs.wf(),
    ensures
        result is Ok ==> result->Ok_0@.len() == page_of(
            pairs@,
            cursor_bound(start_after),
            page_limit_of(limit),
        ).len(),
        result is Ok ==> forall|i: int|
            0 <= i < result->Ok_0@.len() ==> *(#[trigger] result->Ok_0@[i]) == page_of(
                pairs@,
                cursor_bound(start_after),
                page_limit_of(limit),
            )[i].1,
        result is Err ==> result->Err_0 == FactoryError::Storage,
        result is Err <==> listing_blocked(
            pairs@,
            pairs.unreadable(),
            cursor_bound(start_after),
            page_limit_of(limit),
        ),
{
    let size = page_limit(limit);
    let start = calc_range_start(start_after);
    pairs.list_after(start, size)
}

/// Resuming a listing with the pair of the last record of a page as the
/// cursor continues where the page ended: the page and the next one are
/// together the longer page from the first bound. This holds where every
/// record stands under the key of its own pair and no stored key lies in
/// the gap that the cursor skips besides the last key itself.
pub proof fn lemma_resume_after_last_pair(
    s: Seq<(Seq<u8>, PairInfoRaw)>,
    bound: Option<Seq<u8>>,
    limit: nat,
    next_limit: nat,
)
    requires
        sorted(s),
        keyed(s),
        page_of(s, bound, limit).len() > 0,
        gap_is_empty(s, page_of(s, bound, limit).last().0),
    ensures
        page_of(s, bound, limit) + page_of(
            s,
            Some(
                range_start_of(
                    page_of(s, bound, limit).last().1.asset_infos[0]@,
                    page_of(s, bound, limit).last().1.asset_infos[1]@,
                ),
            ),
            next_limit,
        ) == page_of(s, bound, page_of(s, bound, limit).len() + next_limit),
{
    let page = page_of(s, bound, limit);
    let start = listing_start(s, bound);
    if bound is Some {
        lemma_first_after(s, bound->Some_0, 0);
    }
    assert(page.last() == s[start + page.len() - 1]);
    lemma_next_page(s, bound, limit, next_limit);
}

} // verus!
