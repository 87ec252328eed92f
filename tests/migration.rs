use std::collections::HashMap;

use near_sdk::borsh::BorshSerialize;
use sale_migration::error::MigrationError;
use sale_migration::json::{parse_u128_json, SaleJson};
use sale_migration::sale::{Sale, SaleV1, SchemaVersion, UpgradableSale};
use sale_migration::store::{Contract, Deployment, OldContract};

fn v1_bytes(item: &str, price: u128) -> Vec<u8> {
    SaleV1 { item: item.to_string(), price }.encode()
}

fn old_store(records: &[(u64, &str, u128)], next_sale_id: u64) -> OldContract {
    let mut sales = HashMap::new();
    for (id, item, price) in records {
        sales.insert(*id, v1_bytes(item, *price));
    }
    OldContract { sales, next_sale_id }
}

fn migrated(records: &[(u64, &str, u128)], next_sale_id: u64) -> Contract {
    let mut d = Deployment::Previous(old_store(records, next_sale_id));
    assert_eq!(d.migrate(), Ok(()));
    match d {
        Deployment::Current(c) => c,
        _ => panic!("not migrated"),
    }
}

fn owner() -> String {
    "market.near".to_string()
}

#[test]
fn v1_layout_matches_borsh() {
    let bytes = v1_bytes("bike", 1000);
    let expected = ("bike".to_string(), 1000u128).try_to_vec().unwrap();
    assert_eq!(bytes, expected);
    assert_eq!(bytes.len(), 4 + 4 + 16);
}

#[test]
fn sale_layout_matches_borsh() {
    let s = Sale { seller: "alice.near".to_string(), item: "lamp".to_string(), price: 7, amount: 3 };
    let expected =
        ("alice.near".to_string(), "lamp".to_string(), 7u128, 3u64).try_to_vec().unwrap();
    assert_eq!(s.encode(), expected);
}

#[test]
fn slot_layout_has_tag_byte() {
    let v1 = UpgradableSale::V1(SaleV1 { item: "bike".to_string(), price: 1000 });
    let bytes = v1.encode();
    assert_eq!(bytes[0], 0);
    assert_eq!(&bytes[1..], &v1_bytes("bike", 1000)[..]);
    let v2 = UpgradableSale::V2(Sale {
        seller: "a".to_string(),
        item: "b".to_string(),
        price: 1,
        amount: 2,
    });
    assert_eq!(v2.encode()[0], 1);
}

#[test]
fn round_trip_every_version() {
    let v1 = SaleV1 { item: "vélo ✓".to_string(), price: u128::MAX };
    let back = SaleV1::decode(&v1.encode()).unwrap();
    assert_eq!(back.item, v1.item);
    assert_eq!(back.price, v1.price);

    let s = Sale { seller: "bob.near".to_string(), item: "".to_string(), price: 0, amount: u64::MAX };
    let back = Sale::decode(&s.encode()).unwrap();
    assert_eq!((back.seller, back.item, back.price, back.amount), (s.seller.clone(), s.item.clone(), 0, u64::MAX));

    let slot = UpgradableSale::V1(SaleV1 { item: "bike".to_string(), price: 1000 });
    match UpgradableSale::decode(&slot.encode()).unwrap() {
        UpgradableSale::V1(v) => assert_eq!((v.item.as_str(), v.price), ("bike", 1000)),
        UpgradableSale::V2(_) => panic!("wrong version"),
    }
    let slot = UpgradableSale::V2(s);
    match UpgradableSale::decode(&slot.encode()).unwrap() {
        UpgradableSale::V2(v) => assert_eq!((v.seller.as_str(), v.amount), ("bob.near", u64::MAX)),
        UpgradableSale::V1(_) => panic!("wrong version"),
    }
}

#[test]
fn decode_rejects_malformed_bytes() {
    let mut bytes = v1_bytes("bike", 1000);
    bytes.push(0);
    assert!(matches!(SaleV1::decode(&bytes), Err(MigrationError::MalformedRecord)));
    assert!(matches!(SaleV1::decode(&vec![1, 0, 0]), Err(MigrationError::MalformedRecord)));
    let bad_utf8 = vec![1, 0, 0, 0, 0xff, 0, 0, 0, 0, 0, 0, 0, 0, 0, 0, 0, 0, 0, 0, 0, 0];
    assert!(matches!(SaleV1::decode(&bad_utf8), Err(MigrationError::MalformedRecord)));
    let mut unknown_tag = v1_bytes("bike", 1000);
    unknown_tag.insert(0, 2);
    assert!(matches!(UpgradableSale::decode(&unknown_tag), Err(MigrationError::MalformedSlot)));
    assert!(matches!(UpgradableSale::decode(&vec![]), Err(MigrationError::MalformedSlot)));
}

#[test]
fn upgrade_fills_defaults_and_is_idempotent() {
    let slot = UpgradableSale::V1(SaleV1 { item: "bike".to_string(), price: 1000 });
    let once = Sale::from_upgradable(slot, owner());
    assert_eq!((once.seller.as_str(), once.item.as_str(), once.price, once.amount), ("market.near", "bike", 1000, 1));
    let twice = Sale::from_upgradable(UpgradableSale::from(once), owner());
    assert_eq!((twice.seller.as_str(), twice.item.as_str(), twice.price, twice.amount), ("market.near", "bike", 1000, 1));
}

#[test]
fn lazy_read_moves_legacy_record() {
    let mut c = migrated(&[(0, "bike", 1000)], 1);
    assert!(c.legacy_sales.contains_key(&0));
    assert!(!c.sales.contains_key(&0));
    let s = c.get_sale_internal(0, &owner()).unwrap().unwrap();
    assert_eq!((s.seller.as_str(), s.item.as_str(), s.price, s.amount), ("market.near", "bike", 1000, 1));
    assert!(!c.legacy_sales.contains_key(&0));
    assert!(c.sales.contains_key(&0));
    assert_eq!(c.sales[&0][0], 0);
    assert_eq!(c.legacy_len(), 0);
    let again = c.get_sale_internal(0, &owner()).unwrap().unwrap();
    assert_eq!((again.item.as_str(), again.amount), ("bike", 1));
}

#[test]
fn read_only_lookup_leaves_store_alone() {
    let c = migrated(&[(0, "bike", 1000)], 1);
    let j = c.get_sale(0, &owner()).unwrap().unwrap();
    assert_eq!((j.seller.as_str(), j.item.as_str(), j.price, j.amount), ("market.near", "bike", 1000, 1));
    assert_eq!(c.legacy_len(), 1);
    assert!(c.get_sale(5, &owner()).unwrap().is_none());
}

#[test]
fn buying_last_unit_removes_key() {
    let mut c = Contract::new();
    let id = c.add_sale("alice.near".to_string(), "lamp".to_string(), 50, 1).unwrap();
    assert_eq!(id, 0);
    let t = c.buy(id, 50, &owner()).unwrap();
    assert_eq!((t.receiver.as_str(), t.amount), ("alice.near", 50));
    assert!(!c.sales.contains_key(&id));
    assert!(c.get_sale(id, &owner()).unwrap().is_none());
    assert_eq!(c.buy(id, 50, &owner()).err(), Some(MigrationError::RecordNotFound));
}

#[test]
fn buying_keeps_remaining_units_in_latest_schema() {
    let mut c = migrated(&[(0, "bike", 1000)], 1);
    let id = c.add_sale("alice.near".to_string(), "lamp".to_string(), 50, 3).unwrap();
    assert_eq!(id, 1);
    c.buy(id, 50, &owner()).unwrap();
    let s = c.get_sale_internal(id, &owner()).unwrap().unwrap();
    assert_eq!(s.amount, 2);
    assert_eq!(c.sales[&id][0], 1);
    let t = c.buy(0, 1000, &owner()).unwrap();
    assert_eq!((t.receiver.as_str(), t.amount), ("market.near", 1000));
    assert_eq!(c.legacy_len(), 0);
    assert!(!c.sales.contains_key(&0));
}

#[test]
fn purchase_failures_change_nothing() {
    let mut c = migrated(&[(0, "bike", 1000)], 1);
    assert_eq!(c.buy(0, 999, &owner()).err(), Some(MigrationError::WrongDeposit));
    assert_eq!(c.legacy_len(), 1);
    assert!(!c.sales.contains_key(&0));
    assert_eq!(c.add_sale("a".to_string(), "b".to_string(), 1, 0), Err(MigrationError::ZeroAmount));
    assert_eq!(c.next_sale_id, 1);
    let sold_out = UpgradableSale::V2(Sale {
        seller: "a".to_string(),
        item: "b".to_string(),
        price: 1,
        amount: 0,
    });
    c.sales.insert(7, sold_out.encode());
    assert_eq!(c.buy(7, 1, &owner()).err(), Some(MigrationError::SoldOut));
}

#[test]
fn corrupted_slots_are_reported() {
    let mut c = migrated(&[], 0);
    c.legacy_sales.insert(3, vec![9, 9]);
    c.sales.insert(4, vec![5]);
    assert_eq!(c.get_sale_internal(3, &owner()).err(), Some(MigrationError::MalformedRecord));
    assert!(c.legacy_sales.contains_key(&3));
    assert_eq!(c.get_sale_internal(4, &owner()).err(), Some(MigrationError::MalformedSlot));
}

#[test]
fn touched_keys_leave_legacy_container() {
    let mut c = migrated(&[(0, "a", 1), (1, "b", 2), (2, "c", 3)], 3);
    assert_eq!(c.legacy_len(), 3);
    c.get_sale_internal(0, &owner()).unwrap();
    c.get_sale_internal(0, &owner()).unwrap();
    assert_eq!(c.legacy_len(), 2);
    c.buy(2, 3, &owner()).unwrap();
    assert_eq!(c.legacy_len(), 1);
    assert!(c.get_sale_internal(9, &owner()).unwrap().is_none());
    assert_eq!(c.legacy_len(), 1);
}

#[test]
fn bulk_migration_reads_as_lazy_upgrade() {
    let records = [(0, "a", 10), (1, "b", 20), (4, "c", 30)];
    let c = migrated(&records, 5);
    assert_eq!(c.next_sale_id, 5);
    assert!(c.sales.is_empty());
    for (id, item, price) in records {
        let lazy = Sale::from_upgradable(
            UpgradableSale::V1(SaleV1::decode(&v1_bytes(item, price)).unwrap()),
            owner(),
        );
        let read = c.get_sale(id, &owner()).unwrap().unwrap();
        assert_eq!((read.seller, read.item, read.price, read.amount), (lazy.seller, lazy.item, lazy.price, lazy.amount));
    }
}

#[test]
fn second_migration_fails() {
    let mut d = Deployment::Previous(old_store(&[(0, "bike", 1000)], 1));
    assert_eq!(d.migrate(), Ok(()));
    assert_eq!(d.migrate(), Err(MigrationError::AlreadyMigrated));
    match &d {
        Deployment::Current(c) => {
            assert_eq!(c.legacy_len(), 1);
            assert_eq!(c.next_sale_id, 1);
        },
        _ => panic!("state changed"),
    }
    let mut empty = Deployment::Empty;
    assert_eq!(empty.migrate(), Err(MigrationError::NoPriorState));
    assert!(matches!(empty, Deployment::Empty));
}

#[test]
fn wide_price_is_a_decimal_string() {
    let price: u128 = 100_000_000_000_000_000_000;
    let j = SaleJson { seller: "s".to_string(), item: "i\"q".to_string(), price, amount: 1 };
    let text = j.to_json();
    assert_eq!(
        text,
        "{\"seller\":\"s\",\"item\":\"i\\\"q\",\"price\":\"100000000000000000000\",\"amount\":\"1\"}"
    );
    assert_eq!(parse_u128_json(&"\"100000000000000000000\"".to_string()), Some(price));
    assert_eq!(parse_u128_json(&"100000000000000000000".to_string()), None);
    let max = format!("\"{}\"", u128::MAX);
    assert_eq!(parse_u128_json(&max), Some(u128::MAX));
}

#[test]
fn tag_tells_versions_apart() {
    let v1 = UpgradableSale::V1(SaleV1 { item: "bike".to_string(), price: 1 });
    assert_eq!(v1.tag_of(), SchemaVersion::V1);
    let v2 = UpgradableSale::from(Sale::from_upgradable(v1, owner()));
    assert_eq!(v2.tag_of(), SchemaVersion::V2);
    let back = UpgradableSale::decode(&v2.encode()).unwrap();
    assert_eq!(back.tag_of(), SchemaVersion::V2);
}
