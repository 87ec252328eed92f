//! The external form of a record: JSON in which every wide integer is a
//! decimal string, so that clients whose numbers are doubles lose nothing.
use vstd::prelude::*;
use vstd::string::StringExecFns;
use near_sdk::json_types::{U128, U64};
use crate::sale::{Sale, SaleView};

verus! {

/// The character of a decimal digit.
pub open spec fn digit_char(d: nat) -> char {
    seq!['0', '1', '2', '3', '4', '5', '6', '7', '8', '9'][d as int]
}

/// The decimal digits of `n`, most significant first, with no leading zero.
pub open spec fn decimal(n: nat) -> Seq<char>
    decreases n,
{
    if n < 10 {
        seq![digit_char(n)]
    } else {
        decimal(n / 10).push(digit_char(n % 10))
    }
}

/// A JSON string whose contents need no escaping.
pub open spec fn quoted(s: Seq<char>) -> Seq<char> {
    seq!['"'] + s + seq!['"']
}

/// The JSON text of a string: quoted, with its special characters escaped.
pub uninterp spec fn json_string_of(s: Seq<char>) -> Seq<char>;

/// Relies on near_sdk's `U128` serialization through serde_json: the value's
/// decimal digits as a JSON string. Writing into memory cannot fail.
#[verifier::external_body]
fn u128_json(v: u128) -> (r: String)
    ensures
        r@ == quoted(decimal(v as nat)),
{
    near_sdk::serde_json::to_string(&U128(v)).unwrap_or_default()
}

/// Relies on near_sdk's `U64` serialization through serde_json: the value's
/// decimal digits as a JSON string. Writing into memory cannot fail.
#[verifier::external_body]
fn u64_json(v: u64) -> (r: String)
    ensures
        r@ == quoted(decimal(v as nat)),
{
    near_sdk::serde_json::to_string(&U64(v)).unwrap_or_default()
}

/// Relies on serde_json's serialization of a string. Writing into memory
/// cannot fail.
#[verifier::external_body]
fn string_json(s: &String) -> (r: String)
    ensures
        r@ == json_string_of(s@),
{
    near_sdk::serde_json::to_string(s).unwrap_or_default()
}

/// Relies on near_sdk's `U128` deserialization through serde_json: a JSON
/// string of decimal digits is read as the number they spell.
#[verifier::external_body]
fn u128_from_json(s: &String) -> (r: Option<u128>)
    ensures
        forall|v: u128| s@ == quoted(decimal(v as nat)) ==> r == Some(v),
{
    near_sdk::serde_json::from_str::<U128>(s).ok().map(|x| x.0)
}

/// Reads an amount handed in as JSON: the decimal string of a value gives
/// that value, however wide.
pub fn parse_u128_json(s: &String) -> (r: Option<u128>)
    ensures
        forall|v: u128| s@ == quoted(decimal(v as nat)) ==> r == Some(v),
{
    u128_from_json(s)
}

/// A record as a query returns it.
pub struct SaleJson {
    pub seller: String,
    pub item: String,
    pub price: u128,
    pub amount: u64,
}

/// The JSON text of a record in its external form.
pub open spec fn sale_json_text(v: SaleView) -> Seq<char> {
    "{\"seller\":"@ + json_string_of(v.seller) + ",\"item\":"@ + json_string_of(v.item)
        + ",\"price\":"@ + quoted(decimal(v.price as nat)) + ",\"amount\":"@ + quoted(
        decimal(v.amount as nat),
    ) + "}"@
}

impl View for SaleJson {
    type V = SaleView;

    open spec fn view(&self) -> SaleView {
        SaleView { seller: self.seller@, item: self.item@, price: self.price, amount: self.amount }
    }
}

impl SaleJson {
    /// The external form of a latest-schema record.
    pub fn from_sale(s: Sale) -> (r: SaleJson)
        ensures
            r@ == s@,
    {
        SaleJson { seller: s.seller, item: s.item, price: s.price, amount: s.amount }
    }

    /// The record as JSON, its price and amount as decimal strings.
    pub fn to_json(&self) -> (r: String)
        ensures
            r@ == sale_json_text(self@),
    {
        let mut out = String::from_str("{\"seller\":");
        out.append(string_json(&self.seller).as_str());
        out.append(",\"item\":");
        out.append(string_json(&self.item).as_str());
        out.append(",\"price\":");
        out.append(u128_json(self.price).as_str());
        out.append(",\"amount\":");
        out.append(u64_json(self.amount).as_str());
        out.append("}");
        out
    }
}

} // verus!
