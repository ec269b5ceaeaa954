//! The table of native denoms and their precision, kept in a key-value
//! storage under the namespace `allow_native_token`.

use crate::error::{write_outcome, FactoryError};
use crate::storage::{load_decimals, save_decimals, stored_decimals, unread_decimals};
use vstd::prelude::*;

verus! {

/// The key of a native denom in the decimals table: its UTF-8 bytes.
pub open spec fn denom_key(denom: Seq<char>) -> Seq<u8> {
    vstd::utf8::encode_utf8(denom)
}

/// What a read of the table amounts to: the precision that was found,
/// `NotFound` where nothing is stored, `Storage` where the read failed.
pub fn decimals_from_loaded(loaded: Result<Option<u8>, cosmwasm_std::StdError>) -> (result: Result<
    u8,
    FactoryError,
>)
    ensures
        result == (match loaded {
            Ok(Some(decimals)) => Ok::<u8, FactoryError>(decimals),
            Ok(None) => Err::<u8, FactoryError>(FactoryError::NotFound),
            Err(_) => Err::<u8, FactoryError>(FactoryError::Storage),
        }),
{
    match loaded {
        Ok(Some(decimals)) => Ok(decimals),
        Ok(None) => Err(FactoryError::NotFound),
        Err(_) => Err(FactoryError::Storage),
    }
}

/// Sets the precision of a native denom, replacing what was stored for
/// it, readable or not. This always succeeds.
pub fn add_allow_native_token(
    storage: &mut cosmwasm_std::MemoryStorage,
    denom: String,
    decimals: u8,
) -> (result: Result<(), FactoryError>)
    ensures
        result is Ok,
        stored_decimals(*final(storage)) == stored_decimals(*old(storage)).insert(
            denom_key(denom@),
            decimals,
        ),
        unread_decimals(*final(storage)) == unread_decimals(*old(storage)).remove(
            denom_key(denom@),
        ),
{
    write_outcome(save_decimals(storage, denom.as_str().as_bytes(), decimals))
}

/// The precision stored for a native denom: the stored value where the
/// table has one, the error `Storage` where what the storage holds for the
/// denom cannot be read, the error `NotFound` otherwise.
pub fn native_token_decimals(storage: &cosmwasm_std::MemoryStorage, denom: &str) -> (result:
    Result<u8, FactoryError>)
    ensures
        stored_decimals(*storage).contains_key(denom_key(denom@)) ==> result == Ok::<
            u8,
            FactoryError,
        >(stored_decimals(*storage)[denom_key(denom@)]),
        unread_decimals(*storage).contains(denom_key(denom@)) ==> result == Err::<
            u8,
            FactoryError,
        >(FactoryError::Storage),
        !stored_decimals(*storage).contains_key(denom_key(denom@)) && !unread_decimals(
            *storage,
        ).contains(denom_key(denom@)) ==> result == Err::<u8, FactoryError>(
            FactoryError::NotFound,
        ),
{
    decimals_from_loaded(load_decimals(storage, denom.as_bytes()))
}

/// A precision written for a denom is the one read back, whatever was
/// written for it before, and writes for other denoms do not touch it.
pub proof fn lemma_last_write_wins(
    table: Map<Seq<u8>, u8>,
    denom: Seq<u8>,
    first: u8,
    second: u8,
    other: Seq<u8>,
    unrelated: u8,
)
    requires
        other != denom,
    ensures
        table.insert(denom, first).insert(denom, second)[denom] == second,
        table.insert(denom, first).insert(denom, second) == table.insert(denom, second),
        table.insert(denom, second).insert(other, unrelated)[denom] == second,
{
    assert(table.insert(denom, first).insert(denom, second) =~= table.insert(denom, second));
}

} // verus!
