//! The sale record in each schema version, the versioned slot that holds
//! either, their byte layouts, and the upgrade to the latest version.
use vstd::prelude::*;
use crate::codec::{
    le_bytes, str_bytes, str_fits, take_str, take_uint, pow256, push_uint, read_uint, push_str,
    read_str, lemma_take_str, lemma_take_uint, lemma_take_str_inv, lemma_take_uint_inv,
    lemma_pow256_16, lemma_le_bytes_len,
};
use crate::error::MigrationError;

verus! {

/// The first schema: an item and its price, with no seller and no quantity.
pub struct SaleV1 {
    pub item: String,
    pub price: u128,
}

/// The latest schema: who sells, what, at which price, and how many units are left.
pub struct Sale {
    pub seller: String,
    pub item: String,
    pub price: u128,
    pub amount: u64,
}

/// One storage slot: a record in any schema version, told apart by a tag byte.
pub enum UpgradableSale {
    V1(SaleV1),
    V2(Sale),
}

pub struct SaleV1View {
    pub item: Seq<char>,
    pub price: u128,
}

pub struct SaleView {
    pub seller: Seq<char>,
    pub item: Seq<char>,
    pub price: u128,
    pub amount: u64,
}

pub enum SlotView {
    V1(SaleV1View),
    V2(SaleView),
}

impl View for SaleV1 {
    type V = SaleV1View;

    open spec fn view(&self) -> SaleV1View {
        SaleV1View { item: self.item@, price: self.price }
    }
}

impl View for Sale {
    type V = SaleView;

    open spec fn view(&self) -> SaleView {
        SaleView { seller: self.seller@, item: self.item@, price: self.price, amount: self.amount }
    }
}

impl View for UpgradableSale {
    type V = SlotView;

    open spec fn view(&self) -> SlotView {
        match self {
            UpgradableSale::V1(v) => SlotView::V1(v@),
            UpgradableSale::V2(v) => SlotView::V2(v@),
        }
    }
}

/// The schema versions, oldest first.
#[derive(Debug, Clone, Copy, PartialEq, Eq, Structural)]
pub enum SchemaVersion {
    V1,
    V2,
}

/// Tag byte of a first-schema slot.
pub const TAG_V1: u8 = 0;

/// Tag byte of a latest-schema slot.
pub const TAG_V2: u8 = 1;

/// Layout of a first-schema record: item, then price in sixteen bytes.
pub open spec fn v1_bytes(v: SaleV1View) -> Seq<u8> {
    str_bytes(v.item) + le_bytes(v.price as nat, 16)
}

pub open spec fn v1_fits(v: SaleV1View) -> bool {
    str_fits(v.item)
}

/// Layout of a latest-schema record: seller, item, price in sixteen bytes,
/// amount in eight.
pub open spec fn sale_bytes(v: SaleView) -> Seq<u8> {
    str_bytes(v.seller) + str_bytes(v.item) + le_bytes(v.price as nat, 16) + le_bytes(
        v.amount as nat,
        8,
    )
}

pub open spec fn sale_fits(v: SaleView) -> bool {
    str_fits(v.seller) && str_fits(v.item)
}

/// Layout of a slot: the tag byte of its version, then that version's layout.
pub open spec fn slot_bytes(v: SlotView) -> Seq<u8> {
    match v {
        SlotView::V1(r) => seq![TAG_V1] + v1_bytes(r),
        SlotView::V2(r) => seq![TAG_V2] + sale_bytes(r),
    }
}

pub open spec fn slot_fits(v: SlotView) -> bool {
    match v {
        SlotView::V1(r) => v1_fits(r),
        SlotView::V2(r) => sale_fits(r),
    }
}

/// The latest-schema record that a slot stands for. A first-schema record
/// is sold by `current` (the account running the store) and has one unit.
pub open spec fn upgrade(s: SlotView, current: Seq<char>) -> SaleView {
    match s {
        SlotView::V1(r) => SaleView { seller: current, item: r.item, price: r.price, amount: 1 },
        SlotView::V2(r) => r,
    }
}

pub open spec fn take_v1(b: Seq<u8>, pos: int) -> Option<(SaleV1View, int)> {
    match take_str(b, pos) {
        Some((item, p)) => match take_uint(b, p, 16) {
            Some((price, q)) => Some((SaleV1View { item, price: price as u128 }, q)),
            None => None,
        },
        None => None,
    }
}

pub open spec fn take_sale(b: Seq<u8>, pos: int) -> Option<(SaleView, int)> {
    match take_str(b, pos) {
        Some((seller, p1)) => match take_str(b, p1) {
            Some((item, p2)) => match take_uint(b, p2, 16) {
                Some((price, p3)) => match take_uint(b, p3, 8) {
                    Some((amount, p4)) => Some(
                        (SaleView { seller, item, price: price as u128, amount: amount as u64 }, p4),
                    ),
                    None => None,
                },
                None => None,
            },
            None => None,
        },
        None => None,
    }
}

pub proof fn lemma_take_v1(pre: Seq<u8>, v: SaleV1View, post: Seq<u8>)
    requires
        v1_fits(v),
    ensures
        take_v1(pre + v1_bytes(v) + post, pre.len() as int) == Some(
            (v, pre.len() + v1_bytes(v).len() as int),
        ),
{
    let b = pre + v1_bytes(v) + post;
    let pb = le_bytes(v.price as nat, 16);
    lemma_pow256_16();
    assert(b =~= pre + str_bytes(v.item) + (pb + post));
    lemma_take_str(pre, v.item, pb + post);
    assert(b =~= (pre + str_bytes(v.item)) + pb + post);
    lemma_take_uint(pre + str_bytes(v.item), v.price as nat, 16, post);
    lemma_le_bytes_len(v.price as nat, 16);
}

pub proof fn lemma_take_v1_inv(b: Seq<u8>, pos: int)
    requires
        take_v1(b, pos) is Some,
    ensures
        ({
            let (v, p) = take_v1(b, pos)->0;
            &&& 0 <= pos <= p <= b.len()
            &&& v1_fits(v)
            &&& b.subrange(pos, p) == v1_bytes(v)
        }),
{
    let (item, p) = take_str(b, pos)->0;
    lemma_take_str_inv(b, pos);
    lemma_take_uint_inv(b, p, 16);
    lemma_pow256_16();
    let (price, q) = take_uint(b, p, 16)->0;
    assert(b.subrange(pos, q) =~= b.subrange(pos, p) + b.subrange(p, q));
}

pub proof fn lemma_take_sale(pre: Seq<u8>, v: SaleView, post: Seq<u8>)
    requires
        sale_fits(v),
    ensures
        take_sale(pre + sale_bytes(v) + post, pre.len() as int) == Some(
            (v, pre.len() + sale_bytes(v).len() as int),
        ),
{
    let b = pre + sale_bytes(v) + post;
    let s1 = str_bytes(v.seller);
    let s2 = str_bytes(v.item);
    let pb = le_bytes(v.price as nat, 16);
    let ab = le_bytes(v.amount as nat, 8);
    lemma_pow256_16();
    reveal_with_fuel(pow256, 9);
    assert(b =~= pre + s1 + (s2 + pb + ab + post));
    lemma_take_str(pre, v.seller, s2 + pb + ab + post);
    assert(b =~= (pre + s1) + s2 + (pb + ab + post));
    lemma_take_str(pre + s1, v.item, pb + ab + post);
    assert(b =~= (pre + s1 + s2) + pb + (ab + post));
    lemma_take_uint(pre + s1 + s2, v.price as nat, 16, ab + post);
    assert(b =~= (pre + s1 + s2 + pb) + ab + post);
    lemma_take_uint(pre + s1 + s2 + pb, v.amount as nat, 8, post);
    lemma_le_bytes_len(v.price as nat, 16);
    lemma_le_bytes_len(v.amount as nat, 8);
}

pub proof fn lemma_take_sale_inv(b: Seq<u8>, pos: int)
    requires
        take_sale(b, pos) is Some,
    ensures
        ({
            let (v, p) = take_sale(b, pos)->0;
            &&& 0 <= pos <= p <= b.len()
            &&& sale_fits(v)
            &&& b.subrange(pos, p) == sale_bytes(v)
        }),
{
    let (seller, p1) = take_str(b, pos)->0;
    lemma_take_str_inv(b, pos);
    let (item, p2) = take_str(b, p1)->0;
    lemma_take_str_inv(b, p1);
    let (price, p3) = take_uint(b, p2, 16)->0;
    lemma_take_uint_inv(b, p2, 16);
    let (amount, p4) = take_uint(b, p3, 8)->0;
    lemma_take_uint_inv(b, p3, 8);
    lemma_pow256_16();
    reveal_with_fuel(pow256, 9);
    assert(b.subrange(pos, p4) =~= b.subrange(pos, p1) + b.subrange(p1, p2) + b.subrange(p2, p3)
        + b.subrange(p3, p4));
}

pub open spec fn take_slot(b: Seq<u8>, pos: int) -> Option<(SlotView, int)> {
    if 0 <= pos < b.len() && b[pos] == TAG_V1 {
        match take_v1(b, pos + 1) {
            Some((v, p)) => Some((SlotView::V1(v), p)),
            None => None,
        }
    } else if 0 <= pos < b.len() && b[pos] == TAG_V2 {
        match take_sale(b, pos + 1) {
            Some((v, p)) => Some((SlotView::V2(v), p)),
            None => None,
        }
    } else {
        None
    }
}

pub proof fn lemma_take_slot(v: SlotView)
    requires
        slot_fits(v),
    ensures
        take_slot(slot_bytes(v), 0) == Some((v, slot_bytes(v).len() as int)),
{
    let b = slot_bytes(v);
    match v {
        SlotView::V1(r) => {
            assert(b =~= seq![TAG_V1] + v1_bytes(r) + Seq::<u8>::empty());
            lemma_take_v1(seq![TAG_V1], r, Seq::empty());
        },
        SlotView::V2(r) => {
            assert(b =~= seq![TAG_V2] + sale_bytes(r) + Seq::<u8>::empty());
            lemma_take_sale(seq![TAG_V2], r, Seq::empty());
        },
    }
}

pub proof fn lemma_take_slot_inv(b: Seq<u8>, pos: int)
    requires
        take_slot(b, pos) is Some,
    ensures
        ({
            let (v, p) = take_slot(b, pos)->0;
            &&& 0 <= pos < p <= b.len()
            &&& slot_fits(v)
            &&& b.subrange(pos, p) == slot_bytes(v)
        }),
{
    let (v, p) = take_slot(b, pos)->0;
    if b[pos] == TAG_V1 {
        lemma_take_v1_inv(b, pos + 1);
    } else {
        lemma_take_sale_inv(b, pos + 1);
    }
    assert(b.subrange(pos, p) =~= seq![b[pos]] + b.subrange(pos + 1, p));
}

/// A first-schema record is determined by its layout.
pub proof fn lemma_v1_bytes_injective(a: SaleV1View, b: SaleV1View)
    requires
        v1_fits(a),
        v1_fits(b),
        v1_bytes(a) == v1_bytes(b),
    ensures
        a == b,
{
    lemma_take_v1(Seq::empty(), a, Seq::empty());
    lemma_take_v1(Seq::empty(), b, Seq::empty());
    assert(Seq::<u8>::empty() + v1_bytes(a) + Seq::<u8>::empty() =~= v1_bytes(a));
}

/// A latest-schema record is determined by its layout.
pub proof fn lemma_sale_bytes_injective(a: SaleView, b: SaleView)
    requires
        sale_fits(a),
        sale_fits(b),
        sale_bytes(a) == sale_bytes(b),
    ensures
        a == b,
{
    lemma_take_sale(Seq::empty(), a, Seq::empty());
    lemma_take_sale(Seq::empty(), b, Seq::empty());
    assert(Seq::<u8>::empty() + sale_bytes(a) + Seq::<u8>::empty() =~= sale_bytes(a));
}

/// A slot, whatever its version, is determined by its layout: two slots
/// never share one byte string.
pub proof fn lemma_slot_bytes_injective(a: SlotView, b: SlotView)
    requires
        slot_fits(a),
        slot_fits(b),
        slot_bytes(a) == slot_bytes(b),
    ensures
        a == b,
{
    lemma_take_slot(a);
    lemma_take_slot(b);
}

/// Upgrading a slot that already holds the latest record gives that record:
/// upgrading the result of an upgrade changes nothing.
pub proof fn lemma_upgrade_idempotent(s: SlotView, current: Seq<char>)
    ensures
        upgrade(SlotView::V2(upgrade(s, current)), current) == upgrade(s, current),
{
}

/// The first-schema record whose layout `b` is, if any.
pub open spec fn v1_of(b: Seq<u8>) -> Option<SaleV1View> {
    if exists|v: SaleV1View| v1_fits(v) && #[trigger] v1_bytes(v) == b {
        Some(choose|v: SaleV1View| v1_fits(v) && #[trigger] v1_bytes(v) == b)
    } else {
        None
    }
}

/// The slot whose layout `b` is, if any.
pub open spec fn slot_of(b: Seq<u8>) -> Option<SlotView> {
    if exists|v: SlotView| slot_fits(v) && #[trigger] slot_bytes(v) == b {
        Some(choose|v: SlotView| slot_fits(v) && #[trigger] slot_bytes(v) == b)
    } else {
        None
    }
}

/// The latest-schema record whose layout `b` is, if any.
pub open spec fn sale_of(b: Seq<u8>) -> Option<SaleView> {
    if exists|v: SaleView| sale_fits(v) && #[trigger] sale_bytes(v) == b {
        Some(choose|v: SaleView| sale_fits(v) && #[trigger] sale_bytes(v) == b)
    } else {
        None
    }
}

/// Decoding the layout of a latest-schema record gives that record back.
pub proof fn lemma_sale_of(v: SaleView)
    requires
        sale_fits(v),
    ensures
        sale_of(sale_bytes(v)) == Some(v),
{
    let b = sale_bytes(v);
    let w = choose|w: SaleView| sale_fits(w) && #[trigger] sale_bytes(w) == b;
    lemma_sale_bytes_injective(v, w);
}

/// Decoding the layout of a first-schema record gives that record back.
pub proof fn lemma_v1_of(v: SaleV1View)
    requires
        v1_fits(v),
    ensures
        v1_of(v1_bytes(v)) == Some(v),
{
    let b = v1_bytes(v);
    let w = choose|w: SaleV1View| v1_fits(w) && #[trigger] v1_bytes(w) == b;
    lemma_v1_bytes_injective(v, w);
}

/// Decoding the layout of a slot, of either version, gives that slot back.
pub proof fn lemma_slot_of(v: SlotView)
    requires
        slot_fits(v),
    ensures
        slot_of(slot_bytes(v)) == Some(v),
{
    let b = slot_bytes(v);
    let w = choose|w: SlotView| slot_fits(w) && #[trigger] slot_bytes(w) == b;
    lemma_slot_bytes_injective(v, w);
}

fn read_v1(b: &Vec<u8>, pos: usize) -> (r: Option<(SaleV1, usize)>)
    ensures
        r is Some <==> take_v1(b@, pos as int) is Some,
        r matches Some((v, p)) ==> take_v1(b@, pos as int) == Some((v@, p as int)),
{
    let (item, p) = match read_str(b, pos) {
        Some(x) => x,
        None => return None,
    };
    let (price, q) = match read_uint(b, p, 16) {
        Some(x) => x,
        None => return None,
    };
    proof {
        lemma_take_uint_inv(b@, p as int, 16);
        lemma_pow256_16();
    }
    Some((SaleV1 { item, price }, q))
}

fn read_sale(b: &Vec<u8>, pos: usize) -> (r: Option<(Sale, usize)>)
    ensures
        r is Some <==> take_sale(b@, pos as int) is Some,
        r matches Some((v, p)) ==> take_sale(b@, pos as int) == Some((v@, p as int)),
{
    let (seller, p1) = match read_str(b, pos) {
        Some(x) => x,
        None => return None,
    };
    let (item, p2) = match read_str(b, p1) {
        Some(x) => x,
        None => return None,
    };
    let (price, p3) = match read_uint(b, p2, 16) {
        Some(x) => x,
        None => return None,
    };
    let (amount, p4) = match read_uint(b, p3, 8) {
        Some(x) => x,
        None => return None,
    };
    proof {
        lemma_take_uint_inv(b@, p2 as int, 16);
        lemma_take_uint_inv(b@, p3 as int, 8);
        lemma_pow256_16();
        reveal_with_fuel(pow256, 9);
    }
    Some((Sale { seller, item, price, amount: amount as u64 }, p4))
}

impl SaleV1 {
    /// The record's layout.
    pub fn encode(&self) -> (r: Vec<u8>)
        requires
            v1_fits(self@),
        ensures
            r@ == v1_bytes(self@),
    {
        let mut out: Vec<u8> = Vec::new();
        push_str(&mut out, &self.item);
        proof {
            lemma_pow256_16();
        }
        push_uint(&mut out, self.price, 16);
        assert(out@ =~= v1_bytes(self@));
        out
    }

    /// The record whose layout `b` is; `MalformedRecord` exactly when `b` is
    /// the layout of no record.
    pub fn decode(b: &Vec<u8>) -> (r: Result<SaleV1, MigrationError>)
        ensures
            match r {
                Ok(v) => v1_fits(v@) && v1_bytes(v@) == b@,
                Err(e) => e == MigrationError::MalformedRecord && forall|v: SaleV1View|
                    v1_fits(v) ==> #[trigger] v1_bytes(v) != b@,
            },
    {
        if let Some((v, p)) = read_v1(b, 0) {
            if p == b.len() {
                proof {
                    lemma_take_v1_inv(b@, 0);
                    assert(b@.subrange(0, p as int) =~= b@);
                }
                return Ok(v);
            }
        }
        proof {
            assert forall|v: SaleV1View| v1_fits(v) implies #[trigger] v1_bytes(v) != b@ by {
                if v1_bytes(v) == b@ {
                    lemma_take_v1(Seq::empty(), v, Seq::empty());
                    assert(Seq::<u8>::empty() + v1_bytes(v) + Seq::<u8>::empty() =~= b@);
                }
            }
        }
        Err(MigrationError::MalformedRecord)
    }
}

impl Sale {
    /// The record's layout.
    pub fn encode(&self) -> (r: Vec<u8>)
        requires
            sale_fits(self@),
        ensures
            r@ == sale_bytes(self@),
    {
        let mut out: Vec<u8> = Vec::new();
        push_str(&mut out, &self.seller);
        push_str(&mut out, &self.item);
        proof {
            lemma_pow256_16();
            reveal_with_fuel(pow256, 9);
        }
        push_uint(&mut out, self.price, 16);
        push_uint(&mut out, self.amount as u128, 8);
        assert(out@ =~= sale_bytes(self@));
        out
    }

    /// The record whose layout `b` is; `MalformedRecord` exactly when `b` is
    /// the layout of no record.
    pub fn decode(b: &Vec<u8>) -> (r: Result<Sale, MigrationError>)
        ensures
            match r {
                Ok(v) => sale_fits(v@) && sale_bytes(v@) == b@,
                Err(e) => e == MigrationError::MalformedRecord && forall|v: SaleView|
                    sale_fits(v) ==> #[trigger] sale_bytes(v) != b@,
            },
    {
        if let Some((v, p)) = read_sale(b, 0) {
            if p == b.len() {
                proof {
                    lemma_take_sale_inv(b@, 0);
                    assert(b@.subrange(0, p as int) =~= b@);
                }
                return Ok(v);
            }
        }
        proof {
            assert forall|v: SaleView| sale_fits(v) implies #[trigger] sale_bytes(v) != b@ by {
                if sale_bytes(v) == b@ {
                    lemma_take_sale(Seq::empty(), v, Seq::empty());
                    assert(Seq::<u8>::empty() + sale_bytes(v) + Seq::<u8>::empty() =~= b@);
                }
            }
        }
        Err(MigrationError::MalformedRecord)
    }

    /// The latest-schema record that `sale` stands for; a first-schema record
    /// gets `current_account` as its seller and one unit.
    pub fn from_upgradable(sale: UpgradableSale, current_account: String) -> (r: Sale)
        ensures
            r@ == upgrade(sale@, current_account@),
    {
        match sale {
            UpgradableSale::V2(sale) => sale,
            UpgradableSale::V1(salev1) => Sale {
                seller: current_account,
                item: salev1.item,
                price: salev1.price,
                amount: 1,
            },
        }
    }
}

impl From<Sale> for UpgradableSale {
    fn from(sale: Sale) -> (r: UpgradableSale) {
        UpgradableSale::V2(sale)
    }
}

impl vstd::std_specs::convert::FromSpecImpl<Sale> for UpgradableSale {
    open spec fn obeys_from_spec() -> bool {
        true
    }

    open spec fn from_spec(v: Sale) -> UpgradableSale {
        UpgradableSale::V2(v)
    }
}

impl UpgradableSale {
    /// The schema version of the slot's record.
    pub fn tag_of(&self) -> (r: SchemaVersion)
        ensures
            r == (match self@ {
                SlotView::V1(_) => SchemaVersion::V1,
                SlotView::V2(_) => SchemaVersion::V2,
            }),
    {
        match self {
            UpgradableSale::V1(_) => SchemaVersion::V1,
            UpgradableSale::V2(_) => SchemaVersion::V2,
        }
    }

    /// The slot's layout: its tag byte, then its record's layout.
    pub fn encode(&self) -> (r: Vec<u8>)
        requires
            slot_fits(self@),
        ensures
            r@ == slot_bytes(self@),
    {
        match self {
            UpgradableSale::V1(v) => {
                let mut out: Vec<u8> = vec![TAG_V1];
                let mut body = v.encode();
                out.append(&mut body);
                assert(out@ =~= slot_bytes(self@));
                out
            },
            UpgradableSale::V2(v) => {
                let mut out: Vec<u8> = vec![TAG_V2];
                let mut body = v.encode();
                out.append(&mut body);
                assert(out@ =~= slot_bytes(self@));
                out
            },
        }
    }

    /// The slot whose layout `b` is; `MalformedSlot` exactly when `b` is the
    /// layout of no slot.
    pub fn decode(b: &Vec<u8>) -> (r: Result<UpgradableSale, MigrationError>)
        ensures
            match r {
                Ok(v) => slot_fits(v@) && slot_bytes(v@) == b@,
                Err(e) => e == MigrationError::MalformedSlot && forall|v: SlotView|
                    slot_fits(v) ==> #[trigger] slot_bytes(v) != b@,
            },
    {
        if b.len() > 0 {
            let parsed: Option<(UpgradableSale, usize)> = if b[0] == TAG_V1 {
                match read_v1(b, 1) {
                    Some((v, p)) => Some((UpgradableSale::V1(v), p)),
                    None => None,
                }
            } else if b[0] == TAG_V2 {
                match read_sale(b, 1) {
                    Some((v, p)) => Some((UpgradableSale::V2(v), p)),
                    None => None,
                }
            } else {
                None
            };
            assert(parsed is Some <==> take_slot(b@, 0) is Some);
            if let Some((v, p)) = parsed {
                assert(take_slot(b@, 0) == Some((v@, p as int)));
                if p == b.len() {
                    proof {
                        lemma_take_slot_inv(b@, 0);
                        assert(b@.subrange(0, p as int) =~= b@);
                    }
                    return Ok(v);
                }
            }
        }
        proof {
            assert forall|v: SlotView| slot_fits(v) implies #[trigger] slot_bytes(v) != b@ by {
                if slot_bytes(v) == b@ {
                    lemma_take_slot(v);
                }
            }
        }
        Err(MigrationError::MalformedSlot)
    }
}

} // verus!
