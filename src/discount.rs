//! A store whose top-level layout gained a table of per-buyer discounts:
//! the reinterpretation keeps the records where they are and starts the
//! table empty. Each purchase raises the buyer's discount by one percent,
//! up to a cap.
use vstd::prelude::*;
use std::collections::HashMap;
use crate::codec::str_fits;
use crate::error::MigrationError;
use crate::sale::{SaleV1, SaleV1View, v1_of, v1_bytes, lemma_v1_of};
use crate::store::{SaleId, contents, OldContract};

verus! {

broadcast use vstd::std_specs::hash::group_hash_axioms;

/// The largest discount, in percent.
pub const MAX_DISCOUNT: u32 = 20;

/// The discount of `user` in `entries`: the last entry for that user, or 0.
pub open spec fn discount_of(entries: Seq<(Seq<char>, u32)>, user: Seq<char>) -> u32
    decreases entries.len(),
{
    if entries.len() == 0 {
        0
    } else if entries.last().0 == user {
        entries.last().1
    } else {
        discount_of(entries.drop_last(), user)
    }
}

/// `price` less `discount` percent, rounded down.
pub open spec fn discounted(price: u128, discount: u32) -> int {
    price as int * (100 - discount) / 100
}

/// The discount after one more purchase.
pub open spec fn next_discount(d: u32) -> u32 {
    if d + 1 < MAX_DISCOUNT {
        (d + 1) as u32
    } else {
        MAX_DISCOUNT
    }
}

/// `price` less `discount` percent, rounded down, computed without overflow.
pub fn discounted_price(price: u128, discount: u32) -> (r: u128)
    requires
        discount <= 100,
    ensures
        r == discounted(price, discount),
{
    let keep = (100 - discount) as u128;
    let q = price / 100;
    let rem = price % 100;
    assert(q * keep + rem * keep / 100 <= price) by (nonlinear_arith)
        requires
            q == price / 100,
            rem == price % 100,
            keep <= 100,
    ;
    assert(rem * keep < 10000) by (nonlinear_arith)
        requires
            rem < 100,
            keep <= 100,
    ;
    let r = q * keep + rem * keep / 100;
    assert(r == price as int * keep / 100) by (nonlinear_arith)
        requires
            r == q * keep + rem * keep / 100,
            price == q * 100 + rem,
            0 <= rem < 100,
    ;
    r
}

/// Per-buyer discounts, one entry per buyer.
pub struct DiscountTable {
    pub entries: Vec<(String, u32)>,
}

impl DiscountTable {
    pub open spec fn view_entries(&self) -> Seq<(Seq<char>, u32)> {
        self.entries@.map_values(|e: (String, u32)| (e.0@, e.1))
    }

    /// The discount of `user`, in percent.
    pub open spec fn of(&self, user: Seq<char>) -> u32 {
        discount_of(self.view_entries(), user)
    }

    /// Every discount is within the cap.
    pub open spec fn wf(&self) -> bool {
        forall|i: int| 0 <= i < self.entries@.len() ==> #[trigger] self.entries@[i].1 <= MAX_DISCOUNT
    }

    pub fn new() -> (r: DiscountTable)
        ensures
            forall|u: Seq<char>| r.of(u) == 0,
            r.wf(),
    {
        let r = DiscountTable { entries: Vec::new() };
        assert(r.view_entries() =~= Seq::empty());
        r
    }

    /// The discount of `user`, in percent; 0 for a user never seen.
    pub fn get(&self, user: &String) -> (r: u32)
        ensures
            r == self.of(user@),
    {
        let mut i: usize = self.entries.len();
        assert(self.view_entries().subrange(0, i as int) =~= self.view_entries());
        while i > 0
            invariant
                i <= self.entries@.len(),
                self.of(user@) == discount_of(self.view_entries().subrange(0, i as int), user@),
            decreases i,
        {
            let ghost pre = self.view_entries().subrange(0, i as int);
            assert(pre.drop_last() =~= self.view_entries().subrange(0, i - 1));
            if self.entries[i - 1].0 == *user {
                return self.entries[i - 1].1;
            }
            i = i - 1;
        }
        0
    }

    /// Sets the discount of `user` to `d`.
    pub fn set(&mut self, user: &String, d: u32)
        requires
            old(self).wf(),
            d <= MAX_DISCOUNT,
        ensures
            final(self).wf(),
            forall|u: Seq<char>| #[trigger]
                final(self).of(u) == if u == user@ {
                    d
                } else {
                    old(self).of(u)
                },
    {
        let mut i: usize = self.entries.len();
        while i > 0
            invariant
                i <= self.entries@.len(),
                self == old(self),
                old(self).wf(),
                d <= MAX_DISCOUNT,
                forall|j: int| i <= j < self.entries@.len() ==> #[trigger] self.view_entries()[j].0
                    != user@,
            decreases i,
        {
            if self.entries[i - 1].0 == *user {
                let ghost before = self.view_entries();
                self.entries.set(i - 1, (user.clone(), d));
                proof {
                    assert forall|j: int| 0 <= j < self.entries@.len() implies #[trigger]
                        self.entries@[j].1 <= MAX_DISCOUNT by {
                        if j != i - 1 {
                            assert(self.entries@[j] == old(self).entries@[j]);
                        }
                    }
                    assert(self.view_entries() =~= before.update(i - 1, (user@, d)));
                    assert forall|u: Seq<char>| #[trigger]
                        self.of(u) == if u == user@ {
                            d
                        } else {
                            old(self).of(u)
                        } by {
                        lemma_update_last_match(before, (i - 1) as int, user@, d, u);
                    }
                }
                return;
            }
            i = i - 1;
        }
        let ghost before = self.view_entries();
        self.entries.push((user.clone(), d));
        assert(self.view_entries() =~= before.push((user@, d)));
        assert forall|u: Seq<char>| #[trigger]
            self.of(u) == if u == user@ {
                d
            } else {
                old(self).of(u)
            } by {
            assert(self.view_entries().drop_last() =~= before);
        }
    }
}

/// Overwriting the last entry of `user` changes the discount of `user` alone.
proof fn lemma_update_last_match(s: Seq<(Seq<char>, u32)>, i: int, user: Seq<char>, d: u32, u: Seq<char>)
    requires
        0 <= i < s.len(),
        s[i].0 == user,
        forall|j: int| i < j < s.len() ==> #[trigger] s[j].0 != user,
    ensures
        discount_of(s.update(i, (user, d)), u) == if u == user {
            d
        } else {
            discount_of(s, u)
        },
    decreases s.len(),
{
    let t = s.update(i, (user, d));
    if i == s.len() - 1 {
        assert(t.drop_last() =~= s.drop_last());
    } else {
        assert(t.drop_last() =~= s.drop_last().update(i, (user, d)));
        assert(s.last().0 != user);
        lemma_update_last_match(s.drop_last(), i, user, d, u);
    }
}

/// The store with its discount table.
pub struct Contract {
    pub sales: HashMap<u64, Vec<u8>>,
    pub discount: DiscountTable,
    pub next_sale_id: SaleId,
}

impl Contract {
    /// Discounts are within the cap and every key lies below the next id.
    pub open spec fn wf(&self) -> bool {
        &&& self.discount.wf()
        &&& forall|k: u64| #[trigger] self.sales@.contains_key(k) ==> k < self.next_sale_id
    }

    /// The record under `id`.
    pub open spec fn record(&self, id: SaleId) -> Result<Option<SaleV1View>, MigrationError> {
        if contents(self.sales).contains_key(id) {
            match v1_of(contents(self.sales)[id]) {
                Some(v) => Ok(Some(v)),
                None => Err(MigrationError::MalformedRecord),
            }
        } else {
            Ok(None)
        }
    }

    /// An empty store.
    pub fn new() -> (r: Contract)
        ensures
            contents(r.sales) == Map::<u64, Seq<u8>>::empty(),
            forall|u: Seq<char>| r.discount.of(u) == 0,
            r.next_sale_id == 0,
            r.wf(),
    {
        let r = Contract { sales: HashMap::new(), discount: DiscountTable::new(), next_sale_id: 0 };
        assert(contents(r.sales) =~= Map::empty());
        r
    }

    /// Reinterprets the previous layout: the records and the next id stay,
    /// and the discount table starts empty.
    pub fn migrate(old_state: OldContract) -> (r: Contract)
        ensures
            contents(r.sales) == contents(old_state.sales),
            r.next_sale_id == old_state.next_sale_id,
            forall|u: Seq<char>| r.discount.of(u) == 0,
            r.discount.wf(),
    {
        Contract {
            sales: old_state.sales,
            discount: DiscountTable::new(),
            next_sale_id: old_state.next_sale_id,
        }
    }

    /// Stores a new record under the next id and returns that id.
    pub fn add_sale(&mut self, item: String, price: u128) -> (r: SaleId)
        requires
            old(self).wf(),
            old(self).next_sale_id < u64::MAX,
            str_fits(item@),
        ensures
            r == old(self).next_sale_id,
            contents(final(self).sales) == contents(old(self).sales).insert(
                r,
                v1_bytes(SaleV1View { item: item@, price }),
            ),
            final(self).next_sale_id == old(self).next_sale_id + 1,
            final(self).discount == old(self).discount,
            final(self).wf(),
    {
        let sale_id = self.next_sale_id;
        let sale = SaleV1 { item, price };
        let bytes = sale.encode();
        self.sales.insert(sale_id, bytes);
        self.next_sale_id = self.next_sale_id + 1;
        assert(contents(self.sales) =~= contents(old(self).sales).insert(sale_id, v1_bytes(sale@)));
        sale_id
    }

    /// The record under `sale_id`.
    pub fn get_sale(&self, sale_id: SaleId) -> (r: Result<Option<SaleV1>, MigrationError>)
        ensures
            match r {
                Ok(Some(v)) => self.record(sale_id) == Ok::<Option<SaleV1View>, MigrationError>(
                    Some(v@),
                ),
                Ok(None) => self.record(sale_id) == Ok::<Option<SaleV1View>, MigrationError>(None),
                Err(e) => self.record(sale_id) == Err::<Option<SaleV1View>, MigrationError>(e),
            },
    {
        assert(contents(self.sales).dom() =~= self.sales@.dom());
        match self.sales.get(&sale_id) {
            Some(b) => match SaleV1::decode(b) {
                Ok(v) => {
                    proof {
                        lemma_v1_of(v@);
                    }
                    Ok(Some(v))
                },
                Err(e) => Err(e),
            },
            None => Ok(None),
        }
    }

    /// The price of the record under `sale_id` for `user`, less the user's discount.
    pub fn get_price(&self, sale_id: SaleId, user: &String) -> (r: Result<
        Option<u128>,
        MigrationError,
    >)
        requires
            self.wf(),
        ensures
            match self.record(sale_id) {
                Ok(Some(v)) => r == Ok::<Option<u128>, MigrationError>(
                    Some(discounted(v.price, self.discount.of(user@)) as u128),
                ),
                Ok(None) => r == Ok::<Option<u128>, MigrationError>(None),
                Err(e) => r == Err::<Option<u128>, MigrationError>(e),
            },
    {
        match self.get_sale(sale_id) {
            Ok(Some(s)) => {
                let d = self.discount.get(user);
                proof {
                    lemma_discount_capped(self.discount, user@);
                }
                Ok(Some(discounted_price(s.price, d)))
            },
            Ok(None) => Ok(None),
            Err(e) => Err(e),
        }
    }

    /// The discount of `user`, in percent.
    pub fn get_discount(&self, user: &String) -> (r: u32)
        ensures
            r == self.discount.of(user@),
    {
        self.discount.get(user)
    }

    /// Sells the record under `sale_id` to `user` for `attached_deposit`,
    /// which must be its discounted price; the record is removed and the
    /// user's discount grows by one percent, up to the cap.
    pub fn buy(&mut self, sale_id: SaleId, user: &String, attached_deposit: u128) -> (r: Result<
        (),
        MigrationError,
    >)
        requires
            old(self).wf(),
        ensures
            match old(self).record(sale_id) {
                Err(e) => r == Err::<(), MigrationError>(e),
                Ok(None) => r == Err::<(), MigrationError>(MigrationError::RecordNotFound),
                Ok(Some(v)) => if attached_deposit != discounted(
                    v.price,
                    old(self).discount.of(user@),
                ) {
                    r == Err::<(), MigrationError>(MigrationError::WrongDeposit)
                } else {
                    &&& r is Ok
                    &&& contents(final(self).sales) == contents(old(self).sales).remove(sale_id)
                    &&& forall|u: Seq<char>| #[trigger]
                        final(self).discount.of(u) == if u == user@ {
                            next_discount(old(self).discount.of(user@))
                        } else {
                            old(self).discount.of(u)
                        }
                },
            },
            r is Err ==> *final(self) == *old(self),
            final(self).next_sale_id == old(self).next_sale_id,
            final(self).wf(),
    {
        let price = match self.get_price(sale_id, user) {
            Err(e) => return Err(e),
            Ok(None) => return Err(MigrationError::RecordNotFound),
            Ok(Some(p)) => p,
        };
        proof {
            lemma_discount_capped(self.discount, user@);
            let v = self.record(sale_id)->Ok_0->Some_0;
            lemma_discounted_bound(v.price, self.discount.of(user@));
        }
        if attached_deposit != price {
            return Err(MigrationError::WrongDeposit);
        }
        self.sales.remove(&sale_id);
        assert(contents(self.sales) =~= contents(old(self).sales).remove(sale_id));
        let d = self.discount.get(user);
        proof {
            lemma_discount_capped(self.discount, user@);
        }
        let next = if d + 1 < MAX_DISCOUNT {
            d + 1
        } else {
            MAX_DISCOUNT
        };
        self.discount.set(user, next);
        Ok(())
    }
}

impl Default for Contract {
    fn default() -> (r: Contract)
        ensures
            contents(r.sales) == Map::<u64, Seq<u8>>::empty(),
            forall|u: Seq<char>| r.discount.of(u) == 0,
            r.next_sale_id == 0,
            r.wf(),
    {
        Contract::new()
    }
}

/// A discounted price lies between 0 and the full price.
pub proof fn lemma_discounted_bound(price: u128, discount: u32)
    requires
        discount <= 100,
    ensures
        0 <= discounted(price, discount) <= price,
{
    assert(0 <= price as int * (100 - discount) / 100 <= price) by (nonlinear_arith)
        requires
            0 <= 100 - discount <= 100,
    ;
}

/// A well-formed table gives no discount above the cap.
pub proof fn lemma_discount_capped(t: DiscountTable, user: Seq<char>)
    requires
        t.wf(),
    ensures
        t.of(user) <= MAX_DISCOUNT,
{
    lemma_discount_of_capped(t.view_entries(), user);
}

proof fn lemma_discount_of_capped(s: Seq<(Seq<char>, u32)>, user: Seq<char>)
    requires
        forall|i: int| 0 <= i < s.len() ==> #[trigger] s[i].1 <= MAX_DISCOUNT,
    ensures
        discount_of(s, user) <= MAX_DISCOUNT,
    decreases s.len(),
{
    if s.len() > 0 {
        assert(s.last().1 <= MAX_DISCOUNT);
        lemma_discount_of_capped(s.drop_last(), user);
    }
}

} // verus!
