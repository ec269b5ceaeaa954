//! Why an operation of the factory is refused.

use vstd::prelude::*;

verus! {

/// Why an operation of the factory was refused.
#[derive(Debug, Clone, Copy, PartialEq, Eq, Structural)]
pub enum FactoryError {
    /// The caller is not the owner, or may not create pairs.
    Unauthorized,
    /// The pair is registered already.
    AlreadyExists,
    /// Nothing is stored under what was asked for.
    NotFound,
    /// An acknowledgment came while no creation was staged.
    NoPendingCreation,
    /// The key-value storage could not write or read a value.
    Storage,
}

/// What a write to the storage amounts to: success, or `Storage` where
/// the storage refused it.
pub fn write_outcome(written: Result<(), cosmwasm_std::StdError>) -> (result: Result<
    (),
    FactoryError,
>)
    ensures
        result == (match written {
            Ok(_) => Ok::<(), FactoryError>(()),
            Err(_) => Err::<(), FactoryError>(FactoryError::Storage),
        }),
{
    match written {
        Ok(_) => Ok(()),
        Err(_) => Err(FactoryError::Storage),
    }
}

} // verus!
