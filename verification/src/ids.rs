//! Device identity: mesh device uuids, held as their 128-bit value and
//! parsed and formatted through the `uuid` crate.
use crate::hex_digit;
use vstd::prelude::*;

verus! {

/// What `uuid::Uuid::parse_str` yields on a given input: the uuid's 128-bit
/// value, or `None` on malformed input. The result is a function of the
/// characters alone.
pub uninterp spec fn uuid_parse_of(s: Seq<char>) -> Option<u128>;

/// Relies on `uuid::Uuid::parse_str` (and `Uuid::as_u128`): parses a string
/// of hexadecimal digits with optional hyphens into the uuid's 128-bit
/// value; malformed input is reported as `None`.
#[verifier::external_body]
pub(crate) fn parse_uuid(s: &str) -> (r: Option<u128>)
    ensures
        r == uuid_parse_of(s@),
{
    match uuid::Uuid::parse_str(s) {
        Ok(u) => Some(u.as_u128()),
        Err(_) => None,
    }
}

/// A 128-bit value as 32 lowercase hex digits, most significant first: the
/// simple uuid format.
pub open spec fn u128_hex32(u: u128) -> Seq<char> {
    Seq::new(32, |i: int| hex_digit((((u >> ((4 * (31 - i)) as u128)) & 0xf) as u16)))
}

/// Relies on `uuid::fmt::Simple` (via `Uuid::from_u128` and `to_string`):
/// the simple format writes the uuid's 16 bytes, big-endian, as 32 lowercase
/// hexadecimal digits.
#[verifier::external_body]
pub(crate) fn uuid_simple_string(u: u128) -> (r: String)
    ensures
        r@ == u128_hex32(u),
{
    uuid::Uuid::from_u128(u).as_simple().to_string()
}

/// The per-device event topic, `btmesh/{uuid-hex}`.
pub fn event_topic(u: u128) -> (r: String)
    ensures
        r@ == "btmesh/"@ + u128_hex32(u),
{
    let mut s = String::from_str("btmesh/");
    let hex = uuid_simple_string(u);
    s.append(hex.as_str());
    s
}

} // verus!
