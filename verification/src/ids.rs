//! Deterministic trade identifiers, and the wall clock.
//!
//! Replaying the ledger must reproduce the very same trade identifiers,
//! so an identifier is a pure function of the trade's identity — the
//! taker's order, the maker's order, and the maker's account — never a
//! random value.

use vstd::prelude::*;
use vstd::utf8::encode_utf8;

verus! {

/// The character sequence of the name-based (SHA-1) version-5 UUID of
/// a byte string, in its hyphenated form.
pub uninterp spec fn uuid_v5_of(name: Seq<u8>) -> Seq<char>;

/// Relies on `uuid::Uuid::new_v5`: a name-based SHA-1 UUID, a function
/// of the namespace and name bytes alone; and on `Uuid`'s `Display`
/// form, which is the 36-character hyphenated encoding.
#[verifier::external_body]
fn uuid_v5_hex(name: &Vec<u8>) -> (r: String)
    ensures
        r@ == uuid_v5_of(name@),
        r@.len() == 36,
{
    uuid::Uuid::new_v5(&uuid::Uuid::NAMESPACE_OID, name.as_slice()).to_string()
}

/// A `u64` in little-endian byte order.
pub open spec fn u64_le_bytes(v: u64) -> Seq<u8> {
    seq![
        (v % 256) as u8,
        ((v / 256) % 256) as u8,
        ((v / 0x10000) % 256) as u8,
        ((v / 0x1000000) % 256) as u8,
        ((v / 0x100000000) % 256) as u8,
        ((v / 0x10000000000) % 256) as u8,
        ((v / 0x1000000000000) % 256) as u8,
        ((v / 0x100000000000000) % 256) as u8,
    ]
}

/// Append a `u64` to a byte string in little-endian order.
fn push_u64_le(out: &mut Vec<u8>, v: u64)
    ensures
        final(out)@ == old(out)@ + u64_le_bytes(v),
{
    out.push((v % 256) as u8);
    out.push(((v / 256) % 256) as u8);
    out.push(((v / 0x10000) % 256) as u8);
    out.push(((v / 0x1000000) % 256) as u8);
    out.push(((v / 0x100000000) % 256) as u8);
    out.push(((v / 0x10000000000) % 256) as u8);
    out.push(((v / 0x1000000000000) % 256) as u8);
    out.push(((v / 0x100000000000000) % 256) as u8);
    proof {
        assert(out@ =~= old(out)@ + u64_le_bytes(v));
    }
}

/// The byte encoding of a trade's identity: taker order identifier,
/// maker order identifier, and the maker's account in UTF-8.
pub open spec fn trade_key_bytes(taker: u64, maker: u64, maker_account: Seq<char>) -> Seq<u8> {
    u64_le_bytes(taker) + u64_le_bytes(maker) + encode_utf8(maker_account)
}

/// The trade identifier for one fill: the version-5 UUID of the
/// trade's identity. Two runs over the same fill give the same
/// identifier, so replay reproduces identifiers exactly.
pub fn deterministic_trade_id(
    taker_order_id: u64,
    maker_order_id: u64,
    maker_account_id: &String,
) -> (r: String)
    ensures
        r@ == uuid_v5_of(trade_key_bytes(taker_order_id, maker_order_id, maker_account_id@)),
        r@.len() == 36,
{
    let mut name: Vec<u8> = Vec::new();
    push_u64_le(&mut name, taker_order_id);
    push_u64_le(&mut name, maker_order_id);
    let mut acct = maker_account_id.as_str().as_bytes_vec();
    name.append(&mut acct);
    proof {
        assert(name@ =~= trade_key_bytes(taker_order_id, maker_order_id, maker_account_id@));
    }
    uuid_v5_hex(&name)
}

/// Relies on `chrono::Utc::now`: the wall clock, as milliseconds since
/// the Unix epoch. Nothing is assumed of the value returned.
#[verifier::external_body]
pub(crate) fn now_millis() -> i64 {
    chrono::Utc::now().timestamp_millis()
}

} // verus!
