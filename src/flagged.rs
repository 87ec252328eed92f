//! The schema in which a record carries a sold flag instead of a quantity,
//! and the store that keeps such records under ids taken from its size.
use vstd::prelude::*;
use std::collections::HashMap;
use crate::codec::{
    le_bytes, str_bytes, str_fits, bool_bytes, take_str, take_uint, take_bool, push_uint, read_uint,
    push_str, read_str, push_bool, read_bool, lemma_take_str, lemma_take_uint, lemma_take_bool,
    lemma_take_str_inv, lemma_take_uint_inv, lemma_pow256_16, lemma_le_bytes_len,
};
use crate::error::MigrationError;
use crate::sale::{Sale, SaleView};
use crate::store::{SaleId, contents};

verus! {

broadcast use vstd::std_specs::hash::group_hash_axioms;

/// A record that is either for sale or sold.
pub struct FlaggedSale {
    pub item: String,
    pub price: u128,
    pub sold: bool,
}

pub struct FlaggedSaleView {
    pub item: Seq<char>,
    pub price: u128,
    pub sold: bool,
}

impl View for FlaggedSale {
    type V = FlaggedSaleView;

    open spec fn view(&self) -> FlaggedSaleView {
        FlaggedSaleView { item: self.item@, price: self.price, sold: self.sold }
    }
}

/// Layout of a flagged record: item, price in sixteen bytes, then the flag byte.
pub open spec fn flagged_bytes(v: FlaggedSaleView) -> Seq<u8> {
    str_bytes(v.item) + le_bytes(v.price as nat, 16) + bool_bytes(v.sold)
}

pub open spec fn flagged_fits(v: FlaggedSaleView) -> bool {
    str_fits(v.item)
}

pub open spec fn take_flagged(b: Seq<u8>, pos: int) -> Option<(FlaggedSaleView, int)> {
    match take_str(b, pos) {
        Some((item, p1)) => match take_uint(b, p1, 16) {
            Some((price, p2)) => match take_bool(b, p2) {
                Some((sold, p3)) => Some((FlaggedSaleView { item, price: price as u128, sold }, p3)),
                None => None,
            },
            None => None,
        },
        None => None,
    }
}

/// The flagged record whose layout `b` is, if any.
pub open spec fn flagged_of(b: Seq<u8>) -> Option<FlaggedSaleView> {
    if exists|v: FlaggedSaleView| flagged_fits(v) && #[trigger] flagged_bytes(v) == b {
        Some(choose|v: FlaggedSaleView| flagged_fits(v) && #[trigger] flagged_bytes(v) == b)
    } else {
        None
    }
}

/// The quantity that a sold flag stands for: nothing left once sold, one unit before.
pub open spec fn quantity_of_flag(sold: bool) -> u64 {
    if sold {
        0
    } else {
        1
    }
}

pub proof fn lemma_take_flagged(v: FlaggedSaleView)
    requires
        flagged_fits(v),
    ensures
        take_flagged(flagged_bytes(v), 0) == Some((v, flagged_bytes(v).len() as int)),
{
    let s1 = str_bytes(v.item);
    let pb = le_bytes(v.price as nat, 16);
    let fb = bool_bytes(v.sold);
    let b = flagged_bytes(v);
    let e = Seq::<u8>::empty();
    lemma_pow256_16();
    lemma_le_bytes_len(v.price as nat, 16);
    assert(b =~= e + s1 + (pb + fb));
    lemma_take_str(e, v.item, pb + fb);
    assert(b =~= (e + s1) + pb + fb);
    lemma_take_uint(e + s1, v.price as nat, 16, fb);
    assert(b =~= (e + s1 + pb) + fb + e);
    lemma_take_bool(e + s1 + pb, v.sold, e);
}

pub proof fn lemma_take_flagged_inv(b: Seq<u8>)
    requires
        take_flagged(b, 0) is Some,
    ensures
        ({
            let (v, p) = take_flagged(b, 0)->0;
            &&& 0 <= p <= b.len()
            &&& flagged_fits(v)
            &&& b.subrange(0, p) == flagged_bytes(v)
        }),
{
    let (item, p1) = take_str(b, 0)->0;
    lemma_take_str_inv(b, 0);
    lemma_take_uint_inv(b, p1, 16);
    lemma_pow256_16();
    let (price, p2) = take_uint(b, p1, 16)->0;
    let (sold, p3) = take_bool(b, p2)->0;
    assert(b.subrange(p2, p3) =~= bool_bytes(sold));
    assert(b.subrange(0, p3) =~= b.subrange(0, p1) + b.subrange(p1, p2) + b.subrange(p2, p3));
}

/// Decoding the layout of a flagged record gives that record back.
pub proof fn lemma_flagged_of(v: FlaggedSaleView)
    requires
        flagged_fits(v),
    ensures
        flagged_of(flagged_bytes(v)) == Some(v),
{
    let b = flagged_bytes(v);
    let w = choose|w: FlaggedSaleView| flagged_fits(w) && #[trigger] flagged_bytes(w) == b;
    lemma_take_flagged(v);
    lemma_take_flagged(w);
}

fn read_flagged_at(b: &Vec<u8>) -> (r: Option<(FlaggedSale, usize)>)
    ensures
        r is Some <==> take_flagged(b@, 0) is Some,
        r matches Some((v, p)) ==> take_flagged(b@, 0) == Some((v@, p as int)),
{
    let (item, p1) = match read_str(b, 0) {
        Some(x) => x,
        None => return None,
    };
    let (price, p2) = match read_uint(b, p1, 16) {
        Some(x) => x,
        None => return None,
    };
    let (sold, p3) = match read_bool(b, p2) {
        Some(x) => x,
        None => return None,
    };
    proof {
        lemma_take_uint_inv(b@, p1 as int, 16);
        lemma_pow256_16();
    }
    Some((FlaggedSale { item, price, sold }, p3))
}

impl FlaggedSale {
    /// The record's layout.
    pub fn encode(&self) -> (r: Vec<u8>)
        requires
            flagged_fits(self@),
        ensures
            r@ == flagged_bytes(self@),
    {
        let mut out: Vec<u8> = Vec::new();
        push_str(&mut out, &self.item);
        proof {
            lemma_pow256_16();
        }
        push_uint(&mut out, self.price, 16);
        push_bool(&mut out, self.sold);
        assert(out@ =~= flagged_bytes(self@));
        out
    }

    /// The record whose layout `b` is; `MalformedRecord` exactly when `b` is
    /// the layout of no record.
    pub fn decode(b: &Vec<u8>) -> (r: Result<FlaggedSale, MigrationError>)
        ensures
            match r {
                Ok(v) => flagged_fits(v@) && flagged_bytes(v@) == b@,
                Err(e) => e == MigrationError::MalformedRecord && forall|v: FlaggedSaleView|
                    flagged_fits(v) ==> #[trigger] flagged_bytes(v) != b@,
            },
    {
        let ok = read_flagged_at(b);
        assert(ok is Some <==> take_flagged(b@, 0) is Some);
        if let Some((v, p)) = ok {
            assert(take_flagged(b@, 0) == Some((v@, p as int)));
            if p == b.len() {
                proof {
                    lemma_take_flagged_inv(b@);
                    assert(b@.subrange(0, p as int) =~= b@);
                }
                return Ok(v);
            }
        }
        proof {
            assert forall|v: FlaggedSaleView| flagged_fits(v) implies #[trigger] flagged_bytes(v)
                != b@ by {
                if flagged_bytes(v) == b@ {
                    lemma_take_flagged(v);
                }
            }
        }
        Err(MigrationError::MalformedRecord)
    }

    /// The latest-schema record that this one stands for: the flag becomes a
    /// quantity, and `seller` sells it.
    pub fn upgrade(self, seller: String) -> (r: Sale)
        ensures
            r@ == (SaleView {
                seller: seller@,
                item: self@.item,
                price: self@.price,
                amount: quantity_of_flag(self@.sold),
            }),
    {
        Sale { seller, item: self.item, price: self.price, amount: if self.sold { 0 } else { 1 } }
    }
}

/// The record under `id` in a container of flagged records.
pub open spec fn flagged_record(sales: Map<u64, Seq<u8>>, id: SaleId) -> Result<
    Option<FlaggedSaleView>,
    MigrationError,
> {
    if sales.contains_key(id) {
        match flagged_of(sales[id]) {
            Some(v) => Ok(Some(v)),
            None => Err(MigrationError::MalformedRecord),
        }
    } else {
        Ok(None)
    }
}

/// Reads the record under `id` in `sales`.
pub fn read_flagged(sales: &HashMap<u64, Vec<u8>>, id: SaleId) -> (r: Result<
    Option<FlaggedSale>,
    MigrationError,
>)
    ensures
        match r {
            Ok(Some(v)) => flagged_record(contents(*sales), id) == Ok::<
                Option<FlaggedSaleView>,
                MigrationError,
            >(Some(v@)),
            Ok(None) => flagged_record(contents(*sales), id) == Ok::<
                Option<FlaggedSaleView>,
                MigrationError,
            >(None),
            Err(e) => flagged_record(contents(*sales), id) == Err::<
                Option<FlaggedSaleView>,
                MigrationError,
            >(e),
        },
{
    assert(contents(*sales).dom() =~= sales@.dom());
    match sales.get(&id) {
        Some(b) => match FlaggedSale::decode(b) {
            Ok(v) => {
                proof {
                    lemma_flagged_of(v@);
                }
                Ok(Some(v))
            },
            Err(e) => Err(e),
        },
        None => Ok(None),
    }
}

/// The store of flagged records. A new record's id is the number of records
/// held, so an id can come back after a removal.
pub struct Contract {
    pub sales: HashMap<u64, Vec<u8>>,
}

impl Default for Contract {
    fn default() -> (r: Contract)
        ensures
            contents(r.sales) == Map::<u64, Seq<u8>>::empty(),
    {
        Contract::new()
    }
}

impl Contract {
    pub fn new() -> (r: Contract)
        ensures
            contents(r.sales) == Map::<u64, Seq<u8>>::empty(),
    {
        let r = Contract { sales: HashMap::new() };
        assert(contents(r.sales) =~= Map::empty());
        r
    }

    /// Stores a new unsold record under the id equal to the number of
    /// records held, and returns that id.
    pub fn add_sale(&mut self, item: String, price: u128) -> (r: SaleId)
        requires
            str_fits(item@),
        ensures
            r == old(self).sales@.len() as u64,
            contents(final(self).sales) == contents(old(self).sales).insert(
                r,
                flagged_bytes(FlaggedSaleView { item: item@, price, sold: false }),
            ),
    {
        let sale_id = self.sales.len() as u64;
        let sale = FlaggedSale { item, price, sold: false };
        self.sales.insert(sale_id, sale.encode());
        assert(contents(self.sales) =~= contents(old(self).sales).insert(
            sale_id,
            flagged_bytes(sale@),
        ));
        sale_id
    }

    /// Marks the record under `sale_id` sold, for `attached_deposit`, which
    /// must be its price.
    pub fn buy(&mut self, sale_id: SaleId, attached_deposit: u128) -> (r: Result<
        (),
        MigrationError,
    >)
        ensures
            match flagged_record(contents(old(self).sales), sale_id) {
                Err(e) => r == Err::<(), MigrationError>(e),
                Ok(None) => r == Err::<(), MigrationError>(MigrationError::RecordNotFound),
                Ok(Some(v)) => if v.sold {
                    r == Err::<(), MigrationError>(MigrationError::SoldOut)
                } else if attached_deposit != v.price {
                    r == Err::<(), MigrationError>(MigrationError::WrongDeposit)
                } else {
                    r is Ok && contents(final(self).sales) == contents(old(self).sales).insert(
                        sale_id,
                        flagged_bytes(FlaggedSaleView { sold: true, ..v }),
                    )
                },
            },
            r is Err ==> *final(self) == *old(self),
    {
        let sale = match read_flagged(&self.sales, sale_id) {
            Err(e) => return Err(e),
            Ok(None) => return Err(MigrationError::RecordNotFound),
            Ok(Some(s)) => s,
        };
        if sale.sold {
            return Err(MigrationError::SoldOut);
        }
        if attached_deposit != sale.price {
            return Err(MigrationError::WrongDeposit);
        }
        let updated = FlaggedSale { item: sale.item, price: sale.price, sold: true };
        self.sales.insert(sale_id, updated.encode());
        assert(contents(self.sales) =~= contents(old(self).sales).insert(
            sale_id,
            flagged_bytes(updated@),
        ));
        Ok(())
    }
}

} // verus!
