use cosmwasm_std::testing::MockApi;
use cosmwasm_std::{Api, Storage};
use halo_factory::asset::{AssetInfoRaw, CreatePairRequirements, PairInfoRaw};
use halo_factory::pair_key::pair_key;
use halo_factory::state::{page_limit, read_pairs, DEFAULT_LIMIT, MAX_LIMIT};
use halo_factory::error::{write_outcome, FactoryError};
use halo_factory::registry::{
    pick_records, presence_from_loaded, slot_from_loaded, PairRegistry,
};

fn native(denom: &str) -> AssetInfoRaw {
    AssetInfoRaw::NativeToken {
        denom: denom.to_string(),
    }
}

fn canonical(api: &MockApi, human: &str) -> Vec<u8> {
    api.addr_canonicalize(human).unwrap().as_slice().to_vec()
}

fn no_requirements() -> CreatePairRequirements {
    CreatePairRequirements {
        whitelist: vec![],
        first_asset_minimum: 0,
        second_asset_minimum: 0,
    }
}

fn record(api: &MockApi, a: &str, b: &str, pair: &str, lp: &str) -> PairInfoRaw {
    PairInfoRaw {
        contract_addr: canonical(api, pair),
        liquidity_token: canonical(api, lp),
        asset_infos: [native(a), native(b)],
        asset_decimals: [6u8, 6u8],
        requirements: no_requirements(),
    }
}

fn three_pairs() -> PairRegistry {
    let api = MockApi::default();
    let mut pairs = PairRegistry::new();

    let asset_infos = [native("uaura"), native("uatom")];
    let pair_key1 = pair_key(&asset_infos);
    pairs
        .put(pair_key1, record(&api, "uaura", "uatom", "pair1", "lp1"))
        .unwrap();

    let asset_infos = [native("uatom"), native("uusd")];
    let pair_key2 = pair_key(&asset_infos);
    pairs
        .put(pair_key2, record(&api, "uatom", "uusd", "pair2", "lp2"))
        .unwrap();

    let asset_infos = [native("uusd"), native("uaura")];
    let pair_key3 = pair_key(&asset_infos);
    pairs
        .put(pair_key3, record(&api, "uusd", "uaura", "pair3", "lp3"))
        .unwrap();
    pairs
}

#[test]
fn test_read_pairs() {
    let pairs_table = three_pairs();

    let pairs = read_pairs(&pairs_table, None, None).unwrap();
    println!("PAIR: {:?}", pairs);
    assert_eq!(pairs.len(), 3);

    let pairs = read_pairs(
        &pairs_table,
        Some([native("uaura"), native("uatom")]),
        None,
    )
    .unwrap();
    assert_eq!(pairs.len(), 2);

    let pairs = read_pairs(
        &pairs_table,
        Some([native("uaura"), native("uatom")]),
        Some(1),
    )
    .unwrap();
    assert_eq!(pairs.len(), 1);
}

#[test]
fn listing_is_in_ascending_key_order() {
    let api = MockApi::default();
    let table = three_pairs();
    let page = read_pairs(&table, None, None).unwrap();
    let keys: Vec<Vec<u8>> = page.iter().map(|r| pair_key(&r.asset_infos)).collect();
    assert_eq!(
        keys,
        vec![
            b"uatomuaura".to_vec(),
            b"uatomuusd".to_vec(),
            b"uaurauusd".to_vec()
        ]
    );
    assert_eq!(page[0].contract_addr, canonical(&api, "pair1"));
    assert_eq!(page[1].contract_addr, canonical(&api, "pair2"));
    assert_eq!(page[2].contract_addr, canonical(&api, "pair3"));
}

#[test]
fn listing_after_a_pair_returns_the_records_after_its_key() {
    let api = MockApi::default();
    let table = three_pairs();
    let page = read_pairs(&table, Some([native("uatom"), native("uaura")]), None).unwrap();
    assert_eq!(page.len(), 2);
    assert_eq!(page[0].contract_addr, canonical(&api, "pair2"));
    assert_eq!(page[1].contract_addr, canonical(&api, "pair3"));
    let page = read_pairs(&table, Some([native("uusd"), native("uaura")]), None).unwrap();
    assert_eq!(page.len(), 0);
}

#[test]
fn resuming_after_the_last_record_of_a_page_walks_the_whole_registry() {
    let table = three_pairs();
    let all: Vec<PairInfoRaw> = read_pairs(&table, None, None)
        .unwrap()
        .into_iter()
        .cloned()
        .collect();
    let mut walked: Vec<PairInfoRaw> = Vec::new();
    let mut cursor: Option<[AssetInfoRaw; 2]> = None;
    for _ in 0..4 {
        let page = read_pairs(&table, cursor.clone(), Some(1)).unwrap();
        if page.is_empty() {
            break;
        }
        assert_eq!(page.len(), 1);
        assert!(!walked.contains(page[0]));
        walked.push(page[0].clone());
        cursor = Some(page[0].asset_infos.clone());
    }
    assert_eq!(walked, all);
}

#[test]
fn page_limit_defaults_to_ten_and_stops_at_thirty() {
    assert_eq!(DEFAULT_LIMIT, 10);
    assert_eq!(MAX_LIMIT, 30);
    assert_eq!(page_limit(None), 10);
    assert_eq!(page_limit(Some(0)), 0);
    assert_eq!(page_limit(Some(5)), 5);
    assert_eq!(page_limit(Some(30)), 30);
    assert_eq!(page_limit(Some(31)), 30);
    assert_eq!(page_limit(Some(u32::MAX)), 30);
}

#[test]
fn a_large_registry_is_listed_in_pages_of_the_clamped_size() {
    let api = MockApi::default();
    let mut table = PairRegistry::new();
    for i in 0..40u32 {
        let a = format!("ua{:02}", i);
        let key = pair_key(&[native(&a), native("uzzz")]);
        table
            .put(key, record(&api, &a, "uzzz", "pair", "lp0"))
            .unwrap();
    }
    assert_eq!(read_pairs(&table, None, None).unwrap().len(), 10);
    assert_eq!(read_pairs(&table, None, Some(100)).unwrap().len(), 30);
    assert_eq!(read_pairs(&table, None, Some(30)).unwrap().len(), 30);
    assert_eq!(read_pairs(&table, None, Some(7)).unwrap().len(), 7);
    assert_eq!(read_pairs(&table, None, Some(0)).unwrap().len(), 0);
    let tail = read_pairs(&table, Some([native("ua34"), native("uzzz")]), Some(100)).unwrap();
    assert_eq!(tail.len(), 5);
    assert_eq!(tail[0].asset_infos[0], native("ua35"));
}

#[test]
fn put_overwrites_the_record_of_a_key_and_keeps_the_others() {
    let api = MockApi::default();
    let mut table = three_pairs();
    let key = pair_key(&[native("uusd"), native("uatom")]);
    table
        .put(key.clone(), record(&api, "uatom", "uusd", "pair9", "lp9"))
        .unwrap();
    assert_eq!(table.list_after(None, 30).unwrap().len(), 3);
    assert_eq!(table.records.len(), 3);
    assert_eq!(
        table.get(&key).unwrap().contract_addr,
        canonical(&api, "pair9")
    );
    let other = pair_key(&[native("uaura"), native("uatom")]);
    assert_eq!(
        table.get(&other).unwrap().contract_addr,
        canonical(&api, "pair1")
    );
    assert_eq!(table.contains(&other), Ok(true));
    assert_eq!(table.contains(b"uatom"), Ok(false));
    assert_eq!(table.get(b"nothing"), Err(FactoryError::NotFound));
}

#[test]
fn records_come_out_in_key_order_whatever_the_order_of_insertion() {
    let api = MockApi::default();
    let mut table = PairRegistry::new();
    table.put(b"b".to_vec(), record(&api, "b", "", "pair2", "lp2")).unwrap();
    table.put(b"a".to_vec(), record(&api, "a", "", "pair1", "lp1")).unwrap();
    table.put(b"ab".to_vec(), record(&api, "ab", "", "pair3", "lp3")).unwrap();
    table.put(vec![], record(&api, "", "", "pair0", "lp0")).unwrap();
    table.put(b"a".to_vec(), record(&api, "a", "", "pair9", "lp9")).unwrap();
    let all: Vec<Vec<u8>> = table
        .list_after(None, 10)
        .unwrap()
        .into_iter()
        .map(|r| r.contract_addr.clone())
        .collect();
    assert_eq!(
        all,
        vec![
            canonical(&api, "pair0"),
            canonical(&api, "pair9"),
            canonical(&api, "pair3"),
            canonical(&api, "pair2")
        ]
    );
    let after: Vec<Vec<u8>> = table
        .list_after(Some(b"a".to_vec()), 10)
        .unwrap()
        .into_iter()
        .map(|r| r.contract_addr.clone())
        .collect();
    assert_eq!(after, vec![canonical(&api, "pair3"), canonical(&api, "pair2")]);
    let first = table.list_after(None, 2).unwrap();
    assert_eq!(first.len(), 2);
    assert_eq!(first[1].contract_addr, canonical(&api, "pair9"));
}

#[test]
fn a_key_followed_by_a_zero_byte_is_skipped_by_the_cursor_of_that_key() {
    let api = MockApi::default();
    let mut table = PairRegistry::new();
    table.put(b"ab".to_vec(), record(&api, "a", "b", "pair1", "lp1")).unwrap();
    table.put(b"ab\x00".to_vec(), record(&api, "a", "b", "pair2", "lp2")).unwrap();
    table.put(b"ab\x02".to_vec(), record(&api, "a", "b", "pair3", "lp3")).unwrap();
    let page = read_pairs(&table, Some([native("a"), native("b")]), None).unwrap();
    assert_eq!(page.len(), 1);
    assert_eq!(page[0].contract_addr, canonical(&api, "pair3"));
}

#[test]
fn an_index_entry_that_is_no_number_is_a_storage_error() {
    let api = MockApi::default();
    let mut table = three_pairs();
    table.index.set(b"\x00\x09pair_infouatomuusd", b"\"x\"");
    let key = pair_key(&[native("uusd"), native("uatom")]);
    assert_eq!(table.get(&key), Err(FactoryError::Storage));
    assert_eq!(table.contains(&key), Err(FactoryError::Storage));
    assert!(matches!(read_pairs(&table, None, None), Err(FactoryError::Storage)));
    assert_eq!(read_pairs(&table, None, Some(1)).unwrap().len(), 1);
    table
        .put(key.clone(), record(&api, "uatom", "uusd", "pair7", "lp7"))
        .unwrap();
    assert_eq!(table.get(&key).unwrap().contract_addr, canonical(&api, "pair7"));
}

#[test]
fn reads_of_the_index_map_each_outcome() {
    assert_eq!(slot_from_loaded(Ok(Some(4))), Ok(4));
    assert_eq!(slot_from_loaded(Ok(None)), Err(FactoryError::NotFound));
    assert_eq!(
        slot_from_loaded(Err(cosmwasm_std::StdError::generic_err("bad"))),
        Err(FactoryError::Storage)
    );
    assert_eq!(presence_from_loaded(Ok(Some(4))), Ok(true));
    assert_eq!(presence_from_loaded(Ok(None)), Ok(false));
    assert_eq!(
        presence_from_loaded(Err(cosmwasm_std::StdError::generic_err("bad"))),
        Err(FactoryError::Storage)
    );
}

#[test]
fn a_write_succeeds_or_is_a_storage_error() {
    assert_eq!(write_outcome(Ok(())), Ok(()));
    assert_eq!(
        write_outcome(Err(cosmwasm_std::StdError::generic_err("bad"))),
        Err(FactoryError::Storage)
    );
}

#[test]
fn pick_records_follows_the_order_of_the_slots() {
    let api = MockApi::default();
    let records = vec![
        record(&api, "a", "b", "pair0", "lp0"),
        record(&api, "c", "d", "pair1", "lp1"),
        record(&api, "e", "f", "pair2", "lp2"),
    ];
    let picked = pick_records(&records, &vec![2, 0, 2]);
    assert_eq!(picked, vec![&records[2], &records[0], &records[2]]);
    assert!(pick_records(&records, &vec![]).is_empty());
}

#[test]
fn put_always_succeeds_also_over_an_entry_that_cannot_be_read() {
    let api = MockApi::default();
    let mut table = PairRegistry::new();
    table.index.set(b"\x00\x09pair_infoab", b"true");
    assert_eq!(table.contains(b"ab"), Err(FactoryError::Storage));
    assert!(matches!(table.list_after(None, 1), Err(FactoryError::Storage)));
    assert_eq!(table.list_after(None, 0).unwrap().len(), 0);
    assert_eq!(
        table.put(b"ab".to_vec(), record(&api, "a", "b", "pair1", "lp1")),
        Ok(())
    );
    assert_eq!(table.contains(b"ab"), Ok(true));
    assert_eq!(table.list_after(None, 1).unwrap().len(), 1);
}

#[test]
fn an_unreadable_entry_beyond_the_page_does_not_fail_the_listing() {
    let mut table = three_pairs();
    table.index.set(b"\x00\x09pair_infouaurauusd", b"[]");
    assert_eq!(read_pairs(&table, None, Some(2)).unwrap().len(), 2);
    assert!(matches!(read_pairs(&table, None, Some(3)), Err(FactoryError::Storage)));
    assert!(matches!(
        read_pairs(&table, Some([native("uatom"), native("uusd")]), Some(1)),
        Err(FactoryError::Storage)
    ));
    assert_eq!(
        read_pairs(&table, Some([native("uusd"), native("uaura")]), None)
            .unwrap()
            .len(),
        0
    );
}
