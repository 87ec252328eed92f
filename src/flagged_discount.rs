//! The flagged store after its top-level layout gained a table of per-buyer
//! discounts: the reinterpretation keeps the records and starts the table
//! empty.
use vstd::prelude::*;
use std::collections::HashMap;
use crate::codec::str_fits;
use crate::discount::{
    DiscountTable, MAX_DISCOUNT, discounted, discounted_price, next_discount,
    lemma_discount_capped, lemma_discounted_bound,
};
use crate::error::MigrationError;
use crate::flagged::{
    Contract as OldContract, FlaggedSale, FlaggedSaleView, flagged_bytes, flagged_record,
    read_flagged,
};
use crate::store::{SaleId, contents};

verus! {

broadcast use vstd::std_specs::hash::group_hash_axioms;

/// The flagged store with its discount table.
pub struct Contract {
    pub sales: HashMap<u64, Vec<u8>>,
    pub discount: DiscountTable,
}

impl Contract {
    pub fn new() -> (r: Contract)
        ensures
            contents(r.sales) == Map::<u64, Seq<u8>>::empty(),
            forall|u: Seq<char>| r.discount.of(u) == 0,
            r.discount.wf(),
    {
        let r = Contract { sales: HashMap::new(), discount: DiscountTable::new() };
        assert(contents(r.sales) =~= Map::empty());
        r
    }

    /// Reinterprets the previous layout: the records stay, and the discount
    /// table starts empty.
    pub fn migrate(old_state: OldContract) -> (r: Contract)
        ensures
            contents(r.sales) == contents(old_state.sales),
            forall|u: Seq<char>| r.discount.of(u) == 0,
            r.discount.wf(),
    {
        Contract { sales: old_state.sales, discount: DiscountTable::new() }
    }

    /// Stores a new unsold record under the id equal to the number of
    /// records held, and returns that id.
    pub fn add_sale(&mut self, item: String, price: u128) -> (r: SaleId)
        requires
            str_fits(item@),
        ensures
            r == old(self).sales@.len() as u64,
            contents(final(self).sales) == contents(old(self).sales).insert(
                r,
                flagged_bytes(FlaggedSaleView { item: item@, price, sold: false }),
            ),
            final(self).discount == old(self).discount,
    {
        let sale_id = self.sales.len() as u64;
        let sale = FlaggedSale { item, price, sold: false };
        self.sales.insert(sale_id, sale.encode());
        assert(contents(self.sales) =~= contents(old(self).sales).insert(
            sale_id,
            flagged_bytes(sale@),
        ));
        sale_id
    }

    /// The price of the record under `sale_id` for `user`, less the user's
    /// discount.
    pub fn get_price_for_user(&self, sale_id: SaleId, user: &String) -> (r: Result<
        u128,
        MigrationError,
    >)
        requires
            self.discount.wf(),
        ensures
            match flagged_record(contents(self.sales), sale_id) {
                Ok(Some(v)) => r == Ok::<u128, MigrationError>(
                    discounted(v.price, self.discount.of(user@)) as u128,
                ),
                Ok(None) => r == Err::<u128, MigrationError>(MigrationError::RecordNotFound),
                Err(e) => r == Err::<u128, MigrationError>(e),
            },
    {
        match read_flagged(&self.sales, sale_id) {
            Ok(Some(s)) => {
                let d = self.discount.get(user);
                proof {
                    lemma_discount_capped(self.discount, user@);
                }
                Ok(discounted_price(s.price, d))
            },
            Ok(None) => Err(MigrationError::RecordNotFound),
            Err(e) => Err(e),
        }
    }

    /// The record under `sale_id`.
    pub fn get_sale(&self, sale_id: SaleId) -> (r: Result<Option<FlaggedSale>, MigrationError>)
        ensures
            match r {
                Ok(Some(v)) => flagged_record(contents(self.sales), sale_id) == Ok::<
                    Option<FlaggedSaleView>,
                    MigrationError,
                >(Some(v@)),
                Ok(None) => flagged_record(contents(self.sales), sale_id) == Ok::<
                    Option<FlaggedSaleView>,
                    MigrationError,
                >(None),
                Err(e) => flagged_record(contents(self.sales), sale_id) == Err::<
                    Option<FlaggedSaleView>,
                    MigrationError,
                >(e),
            },
    {
        read_flagged(&self.sales, sale_id)
    }

    /// The discount of `user`, in percent.
    pub fn get_discount(&self, user: &String) -> (r: u32)
        ensures
            r == self.discount.of(user@),
    {
        self.discount.get(user)
    }

    /// Marks the record under `sale_id` sold to `user`, for
    /// `attached_deposit`, which must be its discounted price; the user's
    /// discount grows by one percent, up to the cap.
    pub fn buy(&mut self, sale_id: SaleId, user: &String, attached_deposit: u128) -> (r: Result<
        (),
        MigrationError,
    >)
        requires
            old(self).discount.wf(),
        ensures
            match flagged_record(contents(old(self).sales), sale_id) {
                Err(e) => r == Err::<(), MigrationError>(e),
                Ok(None) => r == Err::<(), MigrationError>(MigrationError::RecordNotFound),
                Ok(Some(v)) => if v.sold {
                    r == Err::<(), MigrationError>(MigrationError::SoldOut)
                } else if attached_deposit != discounted(
                    v.price,
                    old(self).discount.of(user@),
                ) {
                    r == Err::<(), MigrationError>(MigrationError::WrongDeposit)
                } else {
                    &&& r is Ok
                    &&& contents(final(self).sales) == contents(old(self).sales).insert(
                        sale_id,
                        flagged_bytes(FlaggedSaleView { sold: true, ..v }),
                    )
                    &&& forall|u: Seq<char>| #[trigger]
                        final(self).discount.of(u) == if u == user@ {
                            next_discount(old(self).discount.of(user@))
                        } else {
                            old(self).discount.of(u)
                        }
                },
            },
            r is Err ==> *final(self) == *old(self),
            final(self).discount.wf(),
    {
        let sale = match read_flagged(&self.sales, sale_id) {
            Err(e) => return Err(e),
            Ok(None) => return Err(MigrationError::RecordNotFound),
            Ok(Some(s)) => s,
        };
        if sale.sold {
            return Err(MigrationError::SoldOut);
        }
        let d = self.discount.get(user);
        proof {
            lemma_discount_capped(self.discount, user@);
            lemma_discounted_bound(sale.price, d);
        }
        let price = discounted_price(sale.price, d);
        if attached_deposit != price {
            return Err(MigrationError::WrongDeposit);
        }
        let updated = FlaggedSale { item: sale.item, price: sale.price, sold: true };
        self.sales.insert(sale_id, updated.encode());
        assert(contents(self.sales) =~= contents(old(self).sales).insert(
            sale_id,
            flagged_bytes(updated@),
        ));
        let next = if d + 1 < MAX_DISCOUNT {
            d + 1
        } else {
            MAX_DISCOUNT
        };
        self.discount.set(user, next);
        Ok(())
    }
}

impl Default for Contract {
    fn default() -> (r: Contract)
        ensures
            contents(r.sales) == Map::<u64, Seq<u8>>::empty(),
            forall|u: Seq<char>| r.discount.of(u) == 0,
            r.discount.wf(),
    {
        Contract::new()
    }
}

} // verus!
