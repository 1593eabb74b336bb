//! The calls that this crate makes into other crates, and into a part of the
//! standard library for which Verus has no contract, each with the contract
//! that the rest of the crate relies on. Verus takes these contracts on trust:
//! they restate what the called function's source and documentation say.

use vstd::prelude::*;
use vstd::string::StringSliceAdditionalSpecFns;
use vstd::utf8::valid_utf8;
use crate::identifier::Cid;

verus! {

/// The value of the hexadecimal digit `c`, of either case; `None` for any
/// other byte.
pub open spec fn hex_digit(c: u8) -> Option<u8> {
    if '0' as u8 <= c <= '9' as u8 {
        Some((c - '0' as u8) as u8)
    } else if 'a' as u8 <= c <= 'f' as u8 {
        Some((c - 'a' as u8 + 10) as u8)
    } else if 'A' as u8 <= c <= 'F' as u8 {
        Some((c - 'A' as u8 + 10) as u8)
    } else {
        None
    }
}

/// `text` is an even number of hexadecimal digits.
pub open spec fn is_hex_text(text: Seq<u8>) -> bool {
    &&& text.len() % 2 == 0
    &&& forall|i: int| 0 <= i < text.len() ==> hex_digit(#[trigger] text[i]) is Some
}

/// The bytes that the hexadecimal digits of `text` stand for, two digits to a
/// byte, the high half first.
pub open spec fn hex_bytes(text: Seq<u8>) -> Seq<u8> {
    Seq::new(
        text.len() / 2,
        |i: int| (hex_digit(text[2 * i]).unwrap() * 16 + hex_digit(text[2 * i + 1]).unwrap()) as u8,
    )
}

/// `hex::FromHexError`, the failure of `hex::decode`. Nothing is stated of
/// what it holds.
#[verifier::external_type_specification]
#[verifier::external_body]
pub struct ExFromHexError(hex::FromHexError);

/// `hex::decode`. It succeeds exactly on an even number of hexadecimal digits,
/// upper and lower case alike, and then returns one byte for every two digits.
#[verifier::external_body]
pub(crate) fn hex_decode(text: &[u8]) -> (r: Result<Vec<u8>, hex::FromHexError>)
    ensures
        r is Ok <==> is_hex_text(text@),
        r matches Ok(bytes) ==> bytes@ == hex_bytes(text@),
{
    hex::decode(text)
}

/// `multihash::Hash::code` of `Hash::SHA1`: the multihash code of SHA-1, `0x11`.
#[verifier::external_body]
pub(crate) fn sha1_code() -> (code: u8)
    ensures
        code == 0x11,
{
    multihash::Hash::SHA1.code()
}

/// `multihash::Hash::size` of `Hash::SHA1`: the length of a SHA-1 digest, 20.
#[verifier::external_body]
pub(crate) fn sha1_size() -> (size: u8)
    ensures
        size == 20,
{
    multihash::Hash::SHA1.size()
}

/// `cid::Cid::new` with the codec `GitRaw` and the version `V1`. The new
/// identifier holds a copy of `hash`; it is handed back with its version and
/// codec as the numbers that `u64::from` gives for them, 1 and `0x78`.
#[verifier::external_body]
pub(crate) fn new_git_raw_cid(hash: &[u8]) -> (c: Cid)
    ensures
        c.version == 1,
        c.codec == 0x78,
        c.hash@ == hash@,
{
    let made = cid::Cid::new(cid::Codec::GitRaw, cid::Version::V1, hash);
    Cid { version: u64::from(made.version), codec: u64::from(made.codec), hash: made.hash }
}

/// `std::str::from_utf8`. It succeeds exactly on well-formed UTF-8, and the
/// string slice that it returns is made of the bytes that it was given.
#[verifier::external_body]
pub(crate) fn str_from_utf8<'a>(bytes: &'a [u8]) -> (r: Option<&'a str>)
    ensures
        r is Some <==> valid_utf8(bytes@),
        r matches Some(text) ==> text.spec_bytes() == bytes@,
{
    std::str::from_utf8(bytes).ok()
}

} // verus!
