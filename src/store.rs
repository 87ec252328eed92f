//! The migration-aware store: a legacy container of first-schema records
//! left over from the previous top-level layout, a current container of
//! versioned slots, lazy move-on-first-touch between them, and the one-shot
//! reinterpretation of the previous layout.
use vstd::prelude::*;
use std::collections::HashMap;
use crate::codec::str_fits;
use crate::error::MigrationError;
use crate::json::SaleJson;
use crate::sale::{
    Sale, SaleV1, SaleView, SlotView, UpgradableSale, slot_bytes, upgrade, v1_of, slot_of,
    sale_fits, TAG_V1, lemma_v1_of, lemma_slot_of, v1_bytes, SaleV1View,
};

verus! {

broadcast use vstd::std_specs::hash::group_hash_axioms;

pub type SaleId = u64;

/// A container's contents: each key with the bytes stored under it.
pub open spec fn contents(m: HashMap<u64, Vec<u8>>) -> Map<u64, Seq<u8>> {
    m@.map_values(|v: Vec<u8>| v@)
}

/// The store as the previous top-level layout held it: one container of
/// first-schema records and the id the next record gets.
pub struct OldContract {
    pub sales: HashMap<u64, Vec<u8>>,
    pub next_sale_id: SaleId,
}

/// The store under the current top-level layout.
pub struct Contract {
    pub legacy_sales: HashMap<u64, Vec<u8>>,
    pub sales: HashMap<u64, Vec<u8>>,
    pub next_sale_id: SaleId,
}

pub struct OldStoreView {
    pub sales: Map<u64, Seq<u8>>,
    pub next_sale_id: SaleId,
}

pub struct StoreView {
    pub legacy: Map<u64, Seq<u8>>,
    pub current: Map<u64, Seq<u8>>,
    pub next_sale_id: SaleId,
}

/// What a purchase owes its seller.
pub struct Transfer {
    pub receiver: String,
    pub amount: u128,
}

/// The record under `id` in a container of first-schema records.
pub open spec fn v1_record(sales: Map<u64, Seq<u8>>, id: SaleId) -> Result<
    Option<SaleV1View>,
    MigrationError,
> {
    if sales.contains_key(id) {
        match v1_of(sales[id]) {
            Some(v) => Ok(Some(v)),
            None => Err(MigrationError::MalformedRecord),
        }
    } else {
        Ok(None)
    }
}

impl OldContract {
    /// An empty store under the previous layout.
    pub fn new() -> (r: OldContract)
        ensures
            r@.sales == Map::<u64, Seq<u8>>::empty(),
            r@.next_sale_id == 0,
    {
        let r = OldContract { sales: HashMap::new(), next_sale_id: 0 };
        assert(r@.sales =~= Map::empty());
        r
    }

    /// Stores a new first-schema record under the next id and returns that id.
    pub fn add_sale(&mut self, item: String, price: u128) -> (r: SaleId)
        requires
            old(self)@.wf(),
            old(self).next_sale_id < u64::MAX,
            str_fits(item@),
        ensures
            r == old(self).next_sale_id,
            final(self)@ == (OldStoreView {
                sales: old(self)@.sales.insert(r, v1_bytes(SaleV1View { item: item@, price })),
                next_sale_id: (r + 1) as u64,
            }),
            final(self)@.wf(),
    {
        let sale_id = self.next_sale_id;
        let sale = SaleV1 { item, price };
        let bytes = sale.encode();
        self.sales.insert(sale_id, bytes);
        self.next_sale_id = self.next_sale_id + 1;
        assert(self@.sales =~= old(self)@.sales.insert(sale_id, v1_bytes(sale@)));
        sale_id
    }

    /// The record under `sale_id`.
    pub fn get_sale(&self, sale_id: SaleId) -> (r: Result<Option<SaleV1>, MigrationError>)
        ensures
            match r {
                Ok(Some(v)) => v1_record(self@.sales, sale_id) == Ok::<
                    Option<SaleV1View>,
                    MigrationError,
                >(Some(v@)),
                Ok(None) => v1_record(self@.sales, sale_id) == Ok::<
                    Option<SaleV1View>,
                    MigrationError,
                >(None),
                Err(e) => v1_record(self@.sales, sale_id) == Err::<
                    Option<SaleV1View>,
                    MigrationError,
                >(e),
            },
    {
        assert(self@.sales.dom() =~= self.sales@.dom());
        match self.sales.get(&sale_id) {
            Some(b) => match SaleV1::decode(b) {
                Ok(v) => {
                    proof {
                        lemma_v1_of(v@);
                    }
                    Ok(Some(v))
                },
                Err(e) => Err(e),
            },
            None => Ok(None),
        }
    }

    /// Sells the record under `sale_id` for `attached_deposit`, which must be
    /// its price; the record is removed.
    pub fn buy(&mut self, sale_id: SaleId, attached_deposit: u128) -> (r: Result<
        (),
        MigrationError,
    >)
        requires
            old(self)@.wf(),
        ensures
            match v1_record(old(self)@.sales, sale_id) {
                Err(e) => r == Err::<(), MigrationError>(e),
                Ok(None) => r == Err::<(), MigrationError>(MigrationError::RecordNotFound),
                Ok(Some(v)) => if attached_deposit != v.price {
                    r == Err::<(), MigrationError>(MigrationError::WrongDeposit)
                } else {
                    r is Ok && final(self)@ == (OldStoreView {
                        sales: old(self)@.sales.remove(sale_id),
                        next_sale_id: old(self).next_sale_id,
                    })
                },
            },
            r is Err ==> final(self)@ == old(self)@,
            final(self)@.wf(),
    {
        let sale = match self.get_sale(sale_id) {
            Err(e) => return Err(e),
            Ok(None) => return Err(MigrationError::RecordNotFound),
            Ok(Some(s)) => s,
        };
        if attached_deposit != sale.price {
            return Err(MigrationError::WrongDeposit);
        }
        self.sales.remove(&sale_id);
        assert(self@.sales =~= old(self)@.sales.remove(sale_id));
        Ok(())
    }
}

impl Default for OldContract {
    fn default() -> (r: OldContract)
        ensures
            r@.sales == Map::<u64, Seq<u8>>::empty(),
            r@.next_sale_id == 0,
    {
        OldContract::new()
    }
}

impl View for OldContract {
    type V = OldStoreView;

    open spec fn view(&self) -> OldStoreView {
        OldStoreView { sales: contents(self.sales), next_sale_id: self.next_sale_id }
    }
}

impl Default for Contract {
    fn default() -> (r: Contract)
        ensures
            r@.legacy == Map::<u64, Seq<u8>>::empty(),
            r@.current == Map::<u64, Seq<u8>>::empty(),
            r@.next_sale_id == 0,
    {
        Contract::new()
    }
}

impl View for Contract {
    type V = StoreView;

    open spec fn view(&self) -> StoreView {
        StoreView {
            legacy: contents(self.legacy_sales),
            current: contents(self.sales),
            next_sale_id: self.next_sale_id,
        }
    }
}

impl OldStoreView {
    /// Ids were handed out in order: every key lies below the next id.
    pub open spec fn wf(self) -> bool {
        forall|k: u64| #[trigger] self.sales.contains_key(k) ==> k < self.next_sale_id
    }

    /// The store right after the reinterpretation: the old container becomes
    /// the legacy one, and the current container starts empty.
    pub open spec fn migrated(self) -> StoreView {
        StoreView { legacy: self.sales, current: Map::empty(), next_sale_id: self.next_sale_id }
    }
}

impl StoreView {
    /// No key is in both containers, and every key lies below the next id.
    pub open spec fn wf(self) -> bool {
        &&& forall|k: u64| #[trigger]
            self.legacy.contains_key(k) ==> k < self.next_sale_id && !self.current.contains_key(k)
        &&& forall|k: u64| #[trigger] self.current.contains_key(k) ==> k < self.next_sale_id
    }

    /// The latest-schema record under `id`, looked up in the current
    /// container first and in the legacy one next.
    pub open spec fn lookup(self, id: SaleId, current_account: Seq<char>) -> Result<
        Option<SaleView>,
        MigrationError,
    > {
        if self.current.contains_key(id) {
            match slot_of(self.current[id]) {
                Some(s) => Ok(Some(upgrade(s, current_account))),
                None => Err(MigrationError::MalformedSlot),
            }
        } else if self.legacy.contains_key(id) {
            match v1_of(self.legacy[id]) {
                Some(v) => Ok(Some(upgrade(SlotView::V1(v), current_account))),
                None => Err(MigrationError::MalformedRecord),
            }
        } else {
            Ok(None)
        }
    }

    /// The store once `id` has been touched: a legacy record under it has
    /// moved to the current container as a first-schema slot.
    pub open spec fn settle(self, id: SaleId) -> StoreView {
        if !self.current.contains_key(id) && self.legacy.contains_key(id) {
            StoreView {
                legacy: self.legacy.remove(id),
                current: self.current.insert(id, seq![TAG_V1] + self.legacy[id]),
                next_sale_id: self.next_sale_id,
            }
        } else {
            self
        }
    }

    /// The store after a sale of one unit of `s`, the record under `id`:
    /// gone when that was the last unit, else stored back in the latest schema.
    pub open spec fn after_purchase(self, id: SaleId, s: SaleView) -> StoreView {
        StoreView {
            legacy: self.legacy.remove(id),
            current: if s.amount == 1 {
                self.current.remove(id)
            } else {
                self.current.insert(
                    id,
                    slot_bytes(SlotView::V2(SaleView { amount: (s.amount - 1) as u64, ..s })),
                )
            },
            next_sale_id: self.next_sale_id,
        }
    }
}

pub open spec fn result_view(r: Result<Option<Sale>, MigrationError>) -> Result<
    Option<SaleView>,
    MigrationError,
> {
    match r {
        Ok(Some(s)) => Ok(Some(s@)),
        Ok(None) => Ok(None),
        Err(e) => Err(e),
    }
}

impl Contract {
    /// An empty store under the current layout.
    pub fn new() -> (r: Contract)
        ensures
            r@.legacy == Map::<u64, Seq<u8>>::empty(),
            r@.current == Map::<u64, Seq<u8>>::empty(),
            r@.next_sale_id == 0,
            r@.wf(),
    {
        let r = Contract { legacy_sales: HashMap::new(), sales: HashMap::new(), next_sale_id: 0 };
        assert(r@.legacy =~= Map::empty());
        assert(r@.current =~= Map::empty());
        r
    }

    /// Reinterprets a store of the previous layout: its container becomes
    /// the legacy container, moved whole; the current container is new.
    pub fn migrate(old_state: OldContract) -> (r: Contract)
        ensures
            r@ == old_state@.migrated(),
            old_state@.wf() ==> r@.wf(),
    {
        let r = Contract {
            legacy_sales: old_state.sales,
            sales: HashMap::new(),
            next_sale_id: old_state.next_sale_id,
        };
        assert(r@.current =~= Map::empty());
        r
    }

    /// The latest-schema record under `sale_id`, read without any change.
    pub fn get_sale_record(&self, sale_id: SaleId, current_account: &String) -> (r: Result<
        Option<Sale>,
        MigrationError,
    >)
        ensures
            result_view(r) == self@.lookup(sale_id, current_account@),
    {
        if let Some(b) = self.sales.get(&sale_id) {
            match UpgradableSale::decode(b) {
                Ok(slot) => {
                    proof {
                        lemma_slot_of(slot@);
                    }
                    Ok(Some(Sale::from_upgradable(slot, current_account.clone())))
                },
                Err(e) => Err(e),
            }
        } else if let Some(b) = self.legacy_sales.get(&sale_id) {
            match SaleV1::decode(b) {
                Ok(v) => {
                    proof {
                        lemma_v1_of(v@);
                    }
                    Ok(Some(Sale::from_upgradable(UpgradableSale::V1(v), current_account.clone())))
                },
                Err(e) => Err(e),
            }
        } else {
            Ok(None)
        }
    }

    /// The record under `sale_id` in its external form, read without any change.
    pub fn get_sale(&self, sale_id: SaleId, current_account: &String) -> (r: Result<
        Option<SaleJson>,
        MigrationError,
    >)
        ensures
            match r {
                Ok(Some(j)) => self@.lookup(sale_id, current_account@) == Ok::<
                    Option<SaleView>,
                    MigrationError,
                >(Some(j@)),
                Ok(None) => self@.lookup(sale_id, current_account@) == Ok::<
                    Option<SaleView>,
                    MigrationError,
                >(None),
                Err(e) => self@.lookup(sale_id, current_account@) == Err::<
                    Option<SaleView>,
                    MigrationError,
                >(e),
            },
    {
        match self.get_sale_record(sale_id, current_account) {
            Ok(Some(s)) => Ok(Some(SaleJson::from_sale(s))),
            Ok(None) => Ok(None),
            Err(e) => Err(e),
        }
    }

    /// The latest-schema record under `sale_id`. A legacy record found there
    /// moves to the current container, so that every touched key is held
    /// there from now on.
    pub fn get_sale_internal(&mut self, sale_id: SaleId, current_account: &String) -> (r: Result<
        Option<Sale>,
        MigrationError,
    >)
        requires
            old(self)@.wf(),
        ensures
            result_view(r) == old(self)@.lookup(sale_id, current_account@),
            r is Ok ==> final(self)@ == old(self)@.settle(sale_id),
            r is Err ==> final(self)@ == old(self)@,
            final(self)@.wf(),
    {
        let r = self.get_sale_record(sale_id, current_account);
        assert(self@.current.dom() =~= self.sales@.dom());
        assert(self@.legacy.dom() =~= self.legacy_sales@.dom());
        if r.is_ok() && !self.sales.contains_key(&sale_id) && self.legacy_sales.contains_key(
            &sale_id,
        ) {
            let ghost before = self@;
            if let Some(b) = self.legacy_sales.remove(&sale_id) {
                let ghost moved = b@;
                assert(moved == before.legacy[sale_id]);
                let mut b = b;
                let mut slot: Vec<u8> = vec![TAG_V1];
                slot.append(&mut b);
                assert(slot@ =~= seq![TAG_V1] + moved);
                self.sales.insert(sale_id, slot);
                assert(self@.legacy =~= before.legacy.remove(sale_id));
                assert(self@.current =~= before.current.insert(
                    sale_id,
                    seq![TAG_V1] + before.legacy[sale_id],
                ));
            }
        }
        r
    }

    /// Sells one unit of the record under `sale_id` for `attached_deposit`,
    /// which must be its price. The record is stored back in the latest
    /// schema, or removed when that was its last unit; the seller is owed
    /// the price.
    pub fn buy(&mut self, sale_id: SaleId, attached_deposit: u128, current_account: &String) -> (r:
        Result<Transfer, MigrationError>)
        requires
            old(self)@.wf(),
            str_fits(current_account@),
        ensures
            match old(self)@.lookup(sale_id, current_account@) {
                Err(e) => r == Err::<Transfer, MigrationError>(e),
                Ok(None) => r == Err::<Transfer, MigrationError>(MigrationError::RecordNotFound),
                Ok(Some(s)) => if s.amount == 0 {
                    r == Err::<Transfer, MigrationError>(MigrationError::SoldOut)
                } else if attached_deposit != s.price {
                    r == Err::<Transfer, MigrationError>(MigrationError::WrongDeposit)
                } else {
                    &&& r matches Ok(t) && t.receiver@ == s.seller && t.amount == s.price
                    &&& final(self)@ == old(self)@.after_purchase(sale_id, s)
                },
            },
            r is Err ==> final(self)@ == old(self)@,
            final(self)@.wf(),
    {
        let rec = match self.get_sale_record(sale_id, current_account) {
            Err(e) => return Err(e),
            Ok(None) => return Err(MigrationError::RecordNotFound),
            Ok(Some(s)) => s,
        };
        if rec.amount == 0 {
            return Err(MigrationError::SoldOut);
        }
        if attached_deposit != rec.price {
            return Err(MigrationError::WrongDeposit);
        }
        let ghost before = self@;
        let ghost s = rec@;
        assert(sale_fits(s));
        self.legacy_sales.remove(&sale_id);
        let receiver = rec.seller.clone();
        let price = rec.price;
        if rec.amount == 1 {
            self.sales.remove(&sale_id);
            assert(self@.current =~= before.current.remove(sale_id));
        } else {
            let updated = Sale {
                seller: rec.seller,
                item: rec.item,
                price: rec.price,
                amount: rec.amount - 1,
            };
            let slot = UpgradableSale::V2(updated);
            let bytes = slot.encode();
            self.sales.insert(sale_id, bytes);
            assert(slot@ == SlotView::V2(SaleView { amount: (s.amount - 1) as u64, ..s }));
            assert(self@.current =~= before.current.insert(sale_id, slot_bytes(slot@)));
        }
        assert(self@.legacy =~= before.legacy.remove(sale_id));
        Ok(Transfer { receiver, amount: price })
    }

    /// Stores a new latest-schema record under the next id and returns that id.
    pub fn add_sale(&mut self, seller: String, item: String, price: u128, amount: u64) -> (r:
        Result<SaleId, MigrationError>)
        requires
            old(self)@.wf(),
            old(self).next_sale_id < u64::MAX,
            str_fits(seller@),
            str_fits(item@),
        ensures
            amount == 0 ==> r == Err::<SaleId, MigrationError>(MigrationError::ZeroAmount)
                && final(self)@ == old(self)@,
            amount > 0 ==> r == Ok::<SaleId, MigrationError>(old(self).next_sale_id),
            amount > 0 ==> final(self)@ == (StoreView {
                legacy: old(self)@.legacy,
                current: old(self)@.current.insert(
                    old(self).next_sale_id,
                    slot_bytes(
                        SlotView::V2(SaleView { seller: seller@, item: item@, price, amount }),
                    ),
                ),
                next_sale_id: (old(self).next_sale_id + 1) as u64,
            }),
            final(self)@.wf(),
    {
        if amount == 0 {
            return Err(MigrationError::ZeroAmount);
        }
        let ghost before = self@;
        let sale_id = self.next_sale_id;
        let slot = UpgradableSale::from(Sale { seller, item, price, amount });
        let bytes = slot.encode();
        self.sales.insert(sale_id, bytes);
        self.next_sale_id = self.next_sale_id + 1;
        assert(self@.current =~= before.current.insert(sale_id, slot_bytes(slot@)));
        Ok(sale_id)
    }

    /// How many records still wait in the legacy container.
    pub fn legacy_len(&self) -> (r: usize)
        ensures
            r == self@.legacy.len(),
    {
        assert(self@.legacy.dom() =~= self.legacy_sales@.dom());
        self.legacy_sales.len()
    }
}

/// The top-level state that the host holds for the store: nothing yet,
/// the previous layout, or the current one.
pub enum Deployment {
    Empty,
    Previous(OldContract),
    Current(Contract),
}

pub enum DeploymentView {
    Empty,
    Previous(OldStoreView),
    Current(StoreView),
}

impl View for Deployment {
    type V = DeploymentView;

    open spec fn view(&self) -> DeploymentView {
        match self {
            Deployment::Empty => DeploymentView::Empty,
            Deployment::Previous(o) => DeploymentView::Previous(o@),
            Deployment::Current(c) => DeploymentView::Current(c@),
        }
    }
}

/// One run of the administrative reinterpretation: the state after it and
/// its outcome. It succeeds only on the previous layout.
pub open spec fn migration_step(d: DeploymentView) -> (DeploymentView, Result<(), MigrationError>) {
    match d {
        DeploymentView::Empty => (d, Err(MigrationError::NoPriorState)),
        DeploymentView::Previous(o) => (DeploymentView::Current(o.migrated()), Ok(())),
        DeploymentView::Current(_) => (d, Err(MigrationError::AlreadyMigrated)),
    }
}

impl Deployment {
    /// The administrative reinterpretation of the previous layout. It fails
    /// with `NoPriorState` on an empty host and with `AlreadyMigrated` on the
    /// current layout, and then leaves the state as it was.
    pub fn migrate(&mut self) -> (r: Result<(), MigrationError>)
        ensures
            (final(self)@, r) == migration_step(old(self)@),
    {
        let mut taken = Deployment::Empty;
        std::mem::swap(self, &mut taken);
        match taken {
            Deployment::Empty => Err(MigrationError::NoPriorState),
            Deployment::Previous(o) => {
                *self = Deployment::Current(Contract::migrate(o));
                Ok(())
            },
            Deployment::Current(c) => {
                *self = Deployment::Current(c);
                Err(MigrationError::AlreadyMigrated)
            },
        }
    }
}

/// After a successful reinterpretation, running it again fails with
/// `AlreadyMigrated` and leaves the state unchanged.
pub proof fn lemma_no_double_migration(d: DeploymentView)
    requires
        migration_step(d).1 is Ok,
    ensures
        ({
            let once = migration_step(d).0;
            migration_step(once) == (once, Err::<(), MigrationError>(MigrationError::AlreadyMigrated))
        }),
{
}

/// The records that the reinterpretation leaves behind read, key by key,
/// exactly as a lazy upgrade of the previous container's records: the
/// first-schema record under each key, upgraded.
pub proof fn lemma_bulk_matches_lazy(o: OldStoreView, id: SaleId, current_account: Seq<char>)
    ensures
        o.migrated().lookup(id, current_account) == if o.sales.contains_key(id) {
            match v1_of(o.sales[id]) {
                Some(v) => Ok(Some(upgrade(SlotView::V1(v), current_account))),
                None => Err(MigrationError::MalformedRecord),
            }
        } else {
            Ok(None)
        },
{
}

/// Touching a key never changes what any key reads as, and retires the key
/// from the legacy container.
pub proof fn lemma_settle_keeps_reads(s: StoreView, id: SaleId, k: SaleId, current_account: Seq<char>)
    requires
        s.wf(),
        s.lookup(id, current_account) is Ok,
    ensures
        s.settle(id).lookup(k, current_account) == s.lookup(k, current_account),
        s.settle(id).legacy == s.legacy.remove(id),
        s.settle(id).wf(),
{
    if !s.current.contains_key(id) && s.legacy.contains_key(id) {
        let b = s.legacy[id];
        let v = v1_of(b)->0;
        assert(v1_bytes(v) == b);
        lemma_slot_of(SlotView::V1(v));
        assert(slot_bytes(SlotView::V1(v)) =~= seq![TAG_V1] + b);
    } else {
        assert(s.legacy.remove(id) =~= s.legacy);
    }
}

/// Every successful read or purchase of a key removes it from the legacy
/// container. So once `keys`, distinct and all held there at first, have
/// each been touched, the legacy container has shrunk by their number.
pub proof fn lemma_monotonic_convergence(legacy: Seq<Map<u64, Seq<u8>>>, keys: Seq<u64>)
    requires
        legacy.len() == keys.len() + 1,
        forall|i: int| 0 <= i < keys.len() ==> #[trigger] legacy[i + 1] == legacy[i].remove(keys[i]),
        keys.no_duplicates(),
        forall|i: int| 0 <= i < keys.len() ==> legacy[0].contains_key(#[trigger] keys[i]),
        legacy[0].dom().finite(),
    ensures
        legacy.last().len() == legacy[0].len() - keys.len(),
        forall|k: u64| #[trigger]
            legacy.last().contains_key(k) <==> legacy[0].contains_key(k) && !keys.contains(k),
    decreases keys.len(),
{
    if keys.len() > 0 {
        let rest = legacy.drop_first();
        let ks = keys.drop_first();
        assert forall|i: int| 0 <= i < ks.len() implies #[trigger] rest[i + 1] == rest[i].remove(
            ks[i],
        ) by {
            assert(legacy[(i + 1) + 1] == legacy[i + 1].remove(keys[i + 1]));
        }
        assert forall|i: int| 0 <= i < ks.len() implies rest[0].contains_key(#[trigger] ks[i]) by {
            assert(keys[i + 1] != keys[0]);
            assert(legacy[0].contains_key(keys[i + 1]));
            assert(legacy[0int + 1] == legacy[0].remove(keys[0]));
        }
        assert(legacy[0int + 1] == legacy[0].remove(keys[0]));
        lemma_monotonic_convergence(rest, ks);
        assert forall|k: u64| #[trigger]
            legacy.last().contains_key(k) <==> legacy[0].contains_key(k) && !keys.contains(k) by {
            if keys.contains(k) && k != keys[0] {
                let j = choose|j: int| 0 <= j < keys.len() && keys[j] == k;
                assert(ks[j - 1] == k);
            }
            if ks.contains(k) {
                let j = choose|j: int| 0 <= j < ks.len() && ks[j] == k;
                assert(keys[j + 1] == k);
            }
            assert(keys[0] == k ==> keys.contains(k));
        }
    } else {
        assert(legacy.last() == legacy[0]);
    }
}

} // verus!
