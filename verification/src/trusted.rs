//! The calls this library makes into outside code, each behind a contract
//! that is taken on trust rather than proved.

use vstd::prelude::*;

use crate::numeric::{be_val, dec_of};

verus! {

/// Relies on `sp_core::U256::from_big_endian`, which reads a slice of at most
/// 32 bytes as a big-endian integer, and on the `Display` implementation of
/// `U256` (collected by `ToString`), which prints that integer as a canonical
/// decimal string.
#[verifier::external_body]
pub(crate) fn u256_decimal_string(bytes: &[u8]) -> (r: String)
    requires
        bytes@.len() == 32,
    ensures
        r@ == dec_of(be_val(bytes@)),
{
    sp_core::U256::from_big_endian(bytes).to_string()
}

/// Relies on `String::from_utf8`: it succeeds exactly on valid UTF-8 input
/// and returns the characters that the bytes encode.
#[verifier::external_body]
pub(crate) fn utf8_to_string(bytes: Vec<u8>) -> (r: Option<String>)
    ensures
        r is Some <==> vstd::utf8::valid_utf8(bytes@),
        r is Some ==> r->0@ == vstd::utf8::decode_utf8(bytes@),
{
    String::from_utf8(bytes).ok()
}

/// Relies on `String::push`: it appends exactly one character.
#[verifier::external_body]
pub(crate) fn push_char(s: &mut String, c: char)
    ensures
        final (s)@ == old(s)@.push(c),
{
    s.push(c);
}

/// Relies on the `PartialEq` implementation of `str`: two string slices are
/// equal exactly when their character sequences are.
#[verifier::external_body]
pub(crate) fn str_eq(a: &str, b: &str) -> (r: bool)
    ensures
        r == (a@ == b@),
{
    a == b
}

/// Relies on `sp_core::sr25519::Public::from_str`, which accepts exactly the
/// well-formed SS58 addresses of the process-wide default address format.
/// Nothing is stated about which strings those are: the accepted set depends
/// on that process-global setting, so the callers handle either answer.
#[verifier::external_body]
pub(crate) fn destination_address_is_valid(s: &str) -> bool {
    <sp_core::sr25519::Public as core::str::FromStr>::from_str(s).is_ok()
}

} // verus!
