//! Addresses of twenty bytes.
use crate::hex::push_hex;
use vstd::prelude::*;

verus! {

/// The twenty bytes of an account.
pub type Address = [u8; 20];

/// The address that a text stands for: forty hexadecimal digits, with an optional prefix.
pub open spec fn address_in(s: Seq<char>) -> Option<Seq<u8>> {
    let h = crate::hex::without_0x(s);
    if crate::hex::hex_of_len(h, 40) {
        Some(crate::hex::hex_bytes(h, 0, 20))
    } else {
        None
    }
}

/// What an optional address is.
pub open spec fn address_view(o: Option<Address>) -> Option<Seq<u8>> {
    match o {
        Some(a) => Some(a@),
        None => None,
    }
}

/// The text of an address: the prefix and its digits in lower case.
pub open spec fn address_text(a: Seq<u8>) -> Seq<char> {
    seq!['0', 'x'] + crate::hex::hex_text(a)
}

/// Calls the `FromStr` of `alloy::primitives::Address`. It takes forty hexadecimal digits of either
/// case, with or without the prefix "0x" or "0X", and nothing else.
#[verifier::external_body]
pub(crate) fn parse_address(s: &str) -> (r: Option<Address>)
    ensures
        address_view(r) == address_in(s@),
{
    s.parse::<alloy::primitives::Address>().ok().map(|a| a.into_array())
}

/// The text of an address.
pub fn address_string(a: &Address) -> (r: String)
    ensures
        r@ == address_text(a@),
{
    let mut r = "0x".to_owned();
    proof {
        reveal_strlit("0x");
        assert("0x"@ =~= seq!['0', 'x']);
    }
    push_hex(&mut r, a.as_slice());
    r
}

/// The text of an address is read back as the address.
pub proof fn law_address_round_trip(a: Seq<u8>)
    requires
        a.len() == 20,
    ensures
        address_in(address_text(a)) == Some(a),
{
    crate::hex::law_hex_round_trip(a);
    assert(crate::hex::without_0x(address_text(a)) =~= crate::hex::hex_text(a));
}

} // verus!
