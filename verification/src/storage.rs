//! The key-value storage of `cosmwasm_std` and the two maps of
//! `cw_storage_plus` that the factory keeps in it. Nothing here is proved:
//! each contract states what the named function does.

use crate::listing::{bound_view, has_key, listing_blocked, lookup, page_of, sorted};
use vstd::prelude::*;

verus! {

/// The in-memory key-value storage of `cosmwasm_std`. Opaque here.
#[verifier::external_type_specification]
#[verifier::external_body]
pub struct ExMemoryStorage(cosmwasm_std::MemoryStorage);

/// The error type of `cosmwasm_std`. Opaque here.
#[verifier::external_type_specification]
#[verifier::external_body]
pub struct ExStdError(cosmwasm_std::StdError);

/// What the decimals table in `storage` holds: for each key under the
/// table's namespace whose stored value reads as a `u8`, that value.
pub uninterp spec fn stored_decimals(storage: cosmwasm_std::MemoryStorage) -> Map<Seq<u8>, u8>;

/// The keys under the decimals table's namespace in `storage` whose stored
/// value does not read as a `u8`.
pub uninterp spec fn unread_decimals(storage: cosmwasm_std::MemoryStorage) -> Set<Seq<u8>>;

/// The keys under the index's namespace in `storage` whose stored value
/// does not read as a `u64`.
pub uninterp spec fn unread_slots(storage: cosmwasm_std::MemoryStorage) -> Set<Seq<u8>>;

/// What the index in `storage` holds, in ascending key order: for each key
/// under the index's namespace whose stored value reads as a `u64`, the key
/// and that value.
pub uninterp spec fn stored_slots(storage: cosmwasm_std::MemoryStorage) -> Seq<(Seq<u8>, u64)>;

/// `cosmwasm_std::MemoryStorage::new`: a storage with no entry at all, so
/// the decimals table and the index in it are empty and hold nothing that
/// cannot be read.
#[verifier::external_body]
pub(crate) fn empty_storage() -> (fresh: cosmwasm_std::MemoryStorage)
    ensures
        forall|denom: Seq<u8>| !stored_decimals(fresh).contains_key(denom),
        forall|denom: Seq<u8>| !unread_decimals(fresh).contains(denom),
        stored_slots(fresh).len() == 0,
        forall|key: Seq<u8>| !unread_slots(fresh).contains(key),
{
    cosmwasm_std::MemoryStorage::new()
}

/// `cw_storage_plus::Map::save` on the table: the value is written as JSON
/// under the namespaced key. Writing a `u8` as JSON cannot fail and gives
/// a value that is not empty, so the call succeeds: the table holds
/// `decimals` under `denom`, which is readable from now on, and every
/// other key is as it was.
#[verifier::external_body]
pub(crate) fn save_decimals(
    storage: &mut cosmwasm_std::MemoryStorage,
    denom: &[u8],
    decimals: u8,
) -> (result: Result<(), cosmwasm_std::StdError>)
    ensures
        result is Ok,
        stored_decimals(*final(storage)) == stored_decimals(*old(storage)).insert(
            denom@,
            decimals,
        ),
        unread_decimals(*final(storage)) == unread_decimals(*old(storage)).remove(denom@),
{
    cw_storage_plus::Map::<&[u8], u8>::new("allow_native_token").save(storage, denom, &decimals)
}

/// `cw_storage_plus::Map::may_load` on the table: the value that reads as
/// a `u8` under `denom`; `None` where the storage has nothing under it; an
/// error exactly where what is stored under it does not read as a `u8`.
#[verifier::external_body]
pub(crate) fn load_decimals(storage: &cosmwasm_std::MemoryStorage, denom: &[u8]) -> (result:
    Result<Option<u8>, cosmwasm_std::StdError>)
    ensures
        result is Ok && result->Ok_0 is Some ==> stored_decimals(*storage).contains_key(denom@)
            && stored_decimals(*storage)[denom@] == result->Ok_0->Some_0,
        !(result is Ok && result->Ok_0 is Some) ==> !stored_decimals(*storage).contains_key(denom@),
        result is Err <==> unread_decimals(*storage).contains(denom@),
{
    cw_storage_plus::Map::<&[u8], u8>::new("allow_native_token").may_load(storage, denom)
}

/// `cw_storage_plus::Map::save` on the index: the slot is written as JSON
/// under the namespaced key. Writing a `u64` as JSON cannot fail and gives
/// a value that is not empty, so the call succeeds: the index holds `slot`
/// under `key`, which is readable from now on, every other key is as it
/// was, and the keys are still handed out in ascending order.
#[verifier::external_body]
pub(crate) fn save_slot(
    storage: &mut cosmwasm_std::MemoryStorage,
    key: &[u8],
    slot: u64,
) -> (result: Result<(), cosmwasm_std::StdError>)
    ensures
        result is Ok,
        sorted(stored_slots(*final(storage))),
        lookup(stored_slots(*final(storage)), key@) == Some(slot),
        forall|k: Seq<u8>|
            k != key@ ==> lookup(stored_slots(*final(storage)), k) == lookup(
                stored_slots(*old(storage)),
                k,
            ),
        unread_slots(*final(storage)) == unread_slots(*old(storage)).remove(key@),
{
    cw_storage_plus::Map::<&[u8], u64>::new("pair_info").save(storage, key, &slot)
}

/// `cw_storage_plus::Map::may_load` on the index: the slot that reads as a
/// `u64` under `key`; `None` where the storage has nothing under it; an
/// error exactly where what is stored under it does not read as a `u64`.
#[verifier::external_body]
pub(crate) fn load_slot(storage: &cosmwasm_std::MemoryStorage, key: &[u8]) -> (result: Result<
    Option<u64>,
    cosmwasm_std::StdError,
>)
    ensures
        result is Ok && result->Ok_0 is Some ==> lookup(stored_slots(*storage), key@)
            == result->Ok_0,
        !(result is Ok && result->Ok_0 is Some) ==> !has_key(stored_slots(*storage), key@),
        result is Err <==> unread_slots(*storage).contains(key@),
{
    cw_storage_plus::Map::<&[u8], u64>::new("pair_info").may_load(storage, key)
}

/// `cw_storage_plus::Map::range` on the index, ascending, from the
/// exclusive raw bound `start` on, and `Iterator::next` on what it
/// returns: the first entry under the namespace whose key sorts strictly
/// after the bound. The call fails exactly where that entry does not read
/// as a `u64`, that is, where a key that cannot be read comes up before
/// any readable one. Otherwise it gives the first readable entry after the
/// bound, which is none of the unreadable ones, or `None` where there is
/// none.
#[verifier::external_body]
pub(crate) fn first_slot_after(
    storage: &cosmwasm_std::MemoryStorage,
    start: &Option<Vec<u8>>,
) -> (result: Result<Option<(Vec<u8>, u64)>, cosmwasm_std::StdError>)
    ensures
        result is Err <==> listing_blocked(
            stored_slots(*storage),
            unread_slots(*storage),
            bound_view(*start),
            1,
        ),
        result is Ok && result->Ok_0 is None ==> page_of(
            stored_slots(*storage),
            bound_view(*start),
            1,
        ).len() == 0,
        result is Ok && result->Ok_0 is Some ==> page_of(
            stored_slots(*storage),
            bound_view(*start),
            1,
        ) == seq![(result->Ok_0->Some_0.0@, result->Ok_0->Some_0.1)],
        result is Ok && result->Ok_0 is Some ==> !unread_slots(*storage).contains(
            result->Ok_0->Some_0.0@,
        ),
{
    cw_storage_plus::Map::<&[u8], u64>::new("pair_info")
        .range(
            storage,
            start.clone().map(cw_storage_plus::Bound::ExclusiveRaw),
            None,
            cosmwasm_std::Order::Ascending,
        )
        .next()
        .transpose()
}

} // verus!
