use cosmwasm_std::testing::MockStorage;
use cosmwasm_std::Storage;
use halo_factory::decimals::{add_allow_native_token, decimals_from_loaded, native_token_decimals};
use halo_factory::error::FactoryError;

#[test]
fn normal() {
    let mut storage = MockStorage::new();
    let denom = "uluna".to_string();
    let decimals = 6u8;

    add_allow_native_token(&mut storage, denom.to_string(), decimals).unwrap();

    assert_eq!(decimals, native_token_decimals(&storage, &denom).unwrap())
}

#[test]
fn duplicate_register_will_append() {
    let mut storage = MockStorage::new();
    let denom = "uluna".to_string();

    add_allow_native_token(&mut storage, denom.to_string(), 6u8).unwrap();

    assert_eq!(native_token_decimals(&storage, &denom).unwrap(), 6u8);

    add_allow_native_token(&mut storage, denom.to_string(), 7u8).unwrap();
    assert_eq!(native_token_decimals(&storage, &denom).unwrap(), 7u8);
}

#[test]
fn decimals_of_an_unknown_denom_are_not_found() {
    let mut storage = MockStorage::new();
    assert_eq!(
        native_token_decimals(&storage, "uluna"),
        Err(FactoryError::NotFound)
    );
    add_allow_native_token(&mut storage, "uluna".to_string(), 6u8).unwrap();
    assert_eq!(
        native_token_decimals(&storage, "uatom"),
        Err(FactoryError::NotFound)
    );
    assert_eq!(native_token_decimals(&storage, "uluna"), Ok(6));
}

#[test]
fn decimals_of_different_denoms_do_not_touch_one_another() {
    let mut storage = MockStorage::new();
    add_allow_native_token(&mut storage, "uluna".to_string(), 6u8).unwrap();
    add_allow_native_token(&mut storage, "uatom".to_string(), 18u8).unwrap();
    add_allow_native_token(&mut storage, "".to_string(), 255u8).unwrap();
    assert_eq!(native_token_decimals(&storage, "uluna"), Ok(6));
    assert_eq!(native_token_decimals(&storage, "uatom"), Ok(18));
    assert_eq!(native_token_decimals(&storage, ""), Ok(255));
    add_allow_native_token(&mut storage, "uatom".to_string(), 0u8).unwrap();
    assert_eq!(native_token_decimals(&storage, "uluna"), Ok(6));
    assert_eq!(native_token_decimals(&storage, "uatom"), Ok(0));
}

#[test]
fn the_table_is_stored_under_its_namespace() {
    let mut storage = MockStorage::new();
    add_allow_native_token(&mut storage, "uluna".to_string(), 6u8).unwrap();
    assert_eq!(
        storage.get(b"\x00\x12allow_native_tokenuluna"),
        Some(b"6".to_vec())
    );
}

#[test]
fn a_stored_value_that_is_no_number_is_a_storage_error() {
    let mut storage = MockStorage::new();
    storage.set(b"\x00\x12allow_native_tokenuluna", b"\"six\"");
    assert_eq!(
        native_token_decimals(&storage, "uluna"),
        Err(FactoryError::Storage)
    );
}

#[test]
fn decimals_from_loaded_maps_each_outcome() {
    assert_eq!(decimals_from_loaded(Ok(Some(6))), Ok(6));
    assert_eq!(decimals_from_loaded(Ok(None)), Err(FactoryError::NotFound));
    assert_eq!(
        decimals_from_loaded(Err(cosmwasm_std::StdError::generic_err("bad"))),
        Err(FactoryError::Storage)
    );
}

#[test]
fn a_write_always_succeeds_also_over_a_value_that_cannot_be_read() {
    let mut storage = MockStorage::new();
    storage.set(b"\x00\x12allow_native_tokenuluna", b"\"six\"");
    assert_eq!(
        native_token_decimals(&storage, "uluna"),
        Err(FactoryError::Storage)
    );
    assert_eq!(
        add_allow_native_token(&mut storage, "uluna".to_string(), 6u8),
        Ok(())
    );
    assert_eq!(native_token_decimals(&storage, "uluna"), Ok(6));
    for decimals in [0u8, 9, 255] {
        assert_eq!(
            add_allow_native_token(&mut storage, "uluna".to_string(), decimals),
            Ok(())
        );
        assert_eq!(native_token_decimals(&storage, "uluna"), Ok(decimals));
    }
}
