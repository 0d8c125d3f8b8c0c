//! Bluetooth-mesh provisioning orchestration: a cloud-side reconciler that
//! decides when devices should be provisioned or reset, a gateway-side
//! sequencer that drives the mesh node-join protocol, and the wire schema
//! the two exchange over a pub/sub transport.
use vstd::prelude::*;

pub mod gateway;
pub mod ids;
pub mod model;
pub mod parse;
pub mod reconciler;
pub mod wire;

verus! {

/// Formats a 16-bit unicast address the way the registry records it as an
/// alias: `0x` followed by four lowercase hex digits.
pub open spec fn hex4(a: u16) -> Seq<char> {
    seq!['0', 'x', hex_digit((a >> 12) & 0xf), hex_digit((a >> 8) & 0xf), hex_digit((a >> 4) & 0xf), hex_digit(a & 0xf)]
}

pub open spec fn hex_digit(n: u16) -> char {
    if n == 0 { '0' } else if n == 1 { '1' } else if n == 2 { '2' } else if n == 3 { '3' }
    else if n == 4 { '4' } else if n == 5 { '5' } else if n == 6 { '6' } else if n == 7 { '7' }
    else if n == 8 { '8' } else if n == 9 { '9' } else if n == 10 { 'a' } else if n == 11 { 'b' }
    else if n == 12 { 'c' } else if n == 13 { 'd' } else if n == 14 { 'e' } else { 'f' }
}

fn hex_digit_exec(n: u16) -> (c: char)
    requires n < 16,
    ensures c == hex_digit(n),
{
    if n == 0 { '0' } else if n == 1 { '1' } else if n == 2 { '2' } else if n == 3 { '3' }
    else if n == 4 { '4' } else if n == 5 { '5' } else if n == 6 { '6' } else if n == 7 { '7' }
    else if n == 8 { '8' } else if n == 9 { '9' } else if n == 10 { 'a' } else if n == 11 { 'b' }
    else if n == 12 { 'c' } else if n == 13 { 'd' } else if n == 14 { 'e' } else { 'f' }
}

/// The alias string recorded for a newly provisioned unicast address.
pub fn address_alias(a: u16) -> (r: String)
    ensures r@ == hex4(a),
{
    proof {
        assert((a >> 12) & 0xf < 16 && (a >> 8) & 0xf < 16 && (a >> 4) & 0xf < 16 && a & 0xf
            < 16) by (bit_vector);
    }
    let mut s = String::new();
    s.append("0x");
    push_char(&mut s, hex_digit_exec((a >> 12) & 0xf));
    push_char(&mut s, hex_digit_exec((a >> 8) & 0xf));
    push_char(&mut s, hex_digit_exec((a >> 4) & 0xf));
    push_char(&mut s, hex_digit_exec(a & 0xf));
    proof {
        reveal_strlit("0x");
        assert(s@ =~= hex4(a));
    }
    s
}

/// Relies on `String::push`: appends exactly the one character.
#[verifier::external_body]
pub(crate) fn push_char(s: &mut String, c: char)
    ensures final(s)@ == old(s)@.push(c),
{
    s.push(c)
}

} // verus!
