use std::collections::HashMap;

use near_sdk::borsh::BorshSerialize;
use sale_migration::discount::{discounted_price, Contract as DiscountStore, DiscountTable, MAX_DISCOUNT};
use sale_migration::error::MigrationError;
use sale_migration::flagged::{Contract as FlaggedStore, FlaggedSale};
use sale_migration::flagged_discount::Contract as FlaggedDiscountStore;
use sale_migration::sale::{SaleV1, UpgradableSale};
use sale_migration::store::OldContract;

#[test]
fn initial_layout_sells_once() {
    let mut s = OldContract::new();
    assert_eq!(s.add_sale("bike".to_string(), 1000), 0);
    assert_eq!(s.add_sale("lamp".to_string(), 5), 1);
    assert_eq!(s.next_sale_id, 2);
    let v = s.get_sale(0).unwrap().unwrap();
    assert_eq!((v.item.as_str(), v.price), ("bike", 1000));
    assert_eq!(s.buy(0, 999), Err(MigrationError::WrongDeposit));
    assert!(s.sales.contains_key(&0));
    assert_eq!(s.buy(0, 1000), Ok(()));
    assert!(s.get_sale(0).unwrap().is_none());
    assert_eq!(s.buy(0, 1000), Err(MigrationError::RecordNotFound));
    assert_eq!(s.buy(9, 1), Err(MigrationError::RecordNotFound));
}

#[test]
fn discounted_price_rounds_down_without_overflow() {
    assert_eq!(discounted_price(1000, 0), 1000);
    assert_eq!(discounted_price(1000, 20), 800);
    assert_eq!(discounted_price(999, 1), 989);
    assert_eq!(discounted_price(u128::MAX, 0), u128::MAX);
    assert_eq!(discounted_price(u128::MAX, 20), u128::MAX / 100 * 80 + (u128::MAX % 100) * 80 / 100);
    assert_eq!(discounted_price(7, 100), 0);
}

#[test]
fn discount_table_overwrites_in_place() {
    let mut t = DiscountTable::new();
    let alice = "alice.near".to_string();
    let bob = "bob.near".to_string();
    assert_eq!(t.get(&alice), 0);
    t.set(&alice, 3);
    t.set(&bob, 7);
    t.set(&alice, 4);
    assert_eq!((t.get(&alice), t.get(&bob)), (4, 7));
    assert_eq!(t.entries.len(), 2);
}

#[test]
fn migration_adds_empty_discount_table() {
    let mut old = OldContract::new();
    old.add_sale("bike".to_string(), 1000);
    old.add_sale("lamp".to_string(), 200);
    let mut c = DiscountStore::migrate(old);
    assert_eq!(c.next_sale_id, 2);
    let alice = "alice.near".to_string();
    assert_eq!(c.get_discount(&alice), 0);
    assert_eq!(c.get_price(0, &alice), Ok(Some(1000)));
    assert_eq!(c.buy(0, &alice, 999), Err(MigrationError::WrongDeposit));
    assert_eq!(c.get_discount(&alice), 0);
    assert_eq!(c.buy(0, &alice, 1000), Ok(()));
    assert_eq!(c.get_discount(&alice), 1);
    assert_eq!(c.get_price(1, &alice), Ok(Some(198)));
    assert!(c.get_sale(0).unwrap().is_none());
    assert_eq!(c.get_price(0, &alice), Ok(None));
    assert_eq!(c.buy(0, &alice, 1000), Err(MigrationError::RecordNotFound));
    assert_eq!(c.add_sale("cup".to_string(), 10), 2);
}

#[test]
fn discount_stops_at_cap() {
    let mut c = DiscountStore::new();
    let alice = "alice.near".to_string();
    for _ in 0..25 {
        let id = c.add_sale("x".to_string(), 100);
        let price = c.get_price(id, &alice).unwrap().unwrap();
        c.buy(id, &alice, price).unwrap();
    }
    assert_eq!(c.get_discount(&alice), MAX_DISCOUNT);
    let id = c.add_sale("x".to_string(), 100);
    assert_eq!(c.get_price(id, &alice), Ok(Some(80)));
}

#[test]
fn flagged_layout_matches_borsh() {
    let f = FlaggedSale { item: "bike".to_string(), price: 9, sold: true };
    assert_eq!(f.encode(), ("bike".to_string(), 9u128, true).try_to_vec().unwrap());
    let back = FlaggedSale::decode(&f.encode()).unwrap();
    assert_eq!((back.item.as_str(), back.price, back.sold), ("bike", 9, true));
    let mut bad = f.encode();
    *bad.last_mut().unwrap() = 2;
    assert!(matches!(FlaggedSale::decode(&bad), Err(MigrationError::MalformedRecord)));
}

#[test]
fn sold_flag_becomes_quantity() {
    let sold = FlaggedSale { item: "a".to_string(), price: 1, sold: true }.upgrade("s".to_string());
    assert_eq!((sold.seller.as_str(), sold.amount), ("s", 0));
    let open = FlaggedSale { item: "a".to_string(), price: 1, sold: false }.upgrade("s".to_string());
    assert_eq!(open.amount, 1);
}

#[test]
fn flagged_store_marks_sold() {
    let mut c = FlaggedStore::new();
    assert_eq!(c.add_sale("bike".to_string(), 10), 0);
    assert_eq!(c.add_sale("lamp".to_string(), 20), 1);
    assert_eq!(c.buy(0, 9), Err(MigrationError::WrongDeposit));
    assert_eq!(c.buy(0, 10), Ok(()));
    assert_eq!(c.buy(0, 10), Err(MigrationError::SoldOut));
    assert_eq!(c.buy(5, 10), Err(MigrationError::RecordNotFound));
    let f = FlaggedSale::decode(&c.sales[&0]).unwrap();
    assert!(f.sold);
}

#[test]
fn cardinality_ids_come_back_after_removal() {
    let mut c = FlaggedStore::new();
    c.add_sale("a".to_string(), 1);
    c.add_sale("b".to_string(), 2);
    c.sales.remove(&0);
    assert_eq!(c.add_sale("c".to_string(), 3), 1);
    let f = FlaggedSale::decode(&c.sales[&1]).unwrap();
    assert_eq!(f.item, "c");
}

#[test]
fn flagged_migration_keeps_records() {
    let mut old = FlaggedStore::new();
    old.add_sale("bike".to_string(), 1000);
    old.buy(0, 1000).unwrap();
    old.add_sale("lamp".to_string(), 100);
    let mut c = FlaggedDiscountStore::migrate(old);
    let bob = "bob.near".to_string();
    let s = c.get_sale(0).unwrap().unwrap();
    assert!(s.sold);
    assert_eq!(c.buy(0, &bob, 1000), Err(MigrationError::SoldOut));
    assert_eq!(c.get_price_for_user(1, &bob), Ok(100));
    assert_eq!(c.buy(1, &bob, 100), Ok(()));
    assert_eq!(c.get_discount(&bob), 1);
    assert_eq!(c.add_sale("cup".to_string(), 100), 2);
    assert_eq!(c.get_price_for_user(2, &bob), Ok(99));
    assert_eq!(c.get_price_for_user(7, &bob), Err(MigrationError::RecordNotFound));
    assert!(c.get_sale(7).unwrap().is_none());
}

#[test]
fn malformed_records_surface_in_every_store() {
    let mut sales = HashMap::new();
    sales.insert(0u64, vec![1u8, 2, 3]);
    let old = OldContract { sales: sales.clone(), next_sale_id: 1 };
    assert!(matches!(old.get_sale(0), Err(MigrationError::MalformedRecord)));
    let d = DiscountStore::migrate(old);
    assert_eq!(d.get_price(0, &"a".to_string()), Err(MigrationError::MalformedRecord));
    let f = FlaggedStore { sales };
    assert_eq!(FlaggedDiscountStore::migrate(f).get_price_for_user(0, &"a".to_string()), Err(MigrationError::MalformedRecord));
    let slot = UpgradableSale::from(sale_migration::sale::Sale {
        seller: "s".to_string(),
        item: "i".to_string(),
        price: 1,
        amount: 1,
    });
    assert_eq!(slot.encode()[0], 1);
    assert!(SaleV1::decode(&slot.encode()).is_err());
}
