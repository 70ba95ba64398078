//! Text encodings. UTF-8 is as vstd states it (`valid_utf8`, `decode_utf8`,
//! `encode_utf8`); UTF-16 is stated here, over code units.
use std::str::Utf8Error;
use std::string::FromUtf16Error;
use vstd::prelude::*;
use vstd::utf8::{decode_utf8, valid_utf8};

use crate::encoding::be_value;

verus! {

#[verifier::external_type_specification]
#[verifier::external_body]
pub struct ExUtf8Error(Utf8Error);

#[verifier::external_type_specification]
#[verifier::external_body]
pub struct ExFromUtf16Error(FromUtf16Error);

/// A code unit that opens a surrogate pair.
pub open spec fn is_high_surrogate(u: u16) -> bool {
    0xD800 <= u <= 0xDBFF
}

/// A code unit that closes a surrogate pair.
pub open spec fn is_low_surrogate(u: u16) -> bool {
    0xDC00 <= u <= 0xDFFF
}

/// The scalar value that a surrogate pair stands for.
pub open spec fn pair_value(high: u16, low: u16) -> int {
    0x10000 + (high - 0xD800) * 0x400 + (low - 0xDC00)
}

/// True when every high surrogate in `units` is followed by a low surrogate
/// and every low surrogate follows a high one.
pub open spec fn valid_utf16(units: Seq<u16>) -> bool
    decreases units.len(),
{
    if units.len() == 0 {
        true
    } else if is_high_surrogate(units[0]) {
        units.len() >= 2 && is_low_surrogate(units[1]) && valid_utf16(units.skip(2))
    } else if is_low_surrogate(units[0]) {
        false
    } else {
        valid_utf16(units.drop_first())
    }
}

/// The characters that well-formed UTF-16 `units` encode.
pub open spec fn decode_utf16(units: Seq<u16>) -> Seq<char>
    decreases units.len(),
{
    if units.len() == 0 {
        seq![]
    } else if is_high_surrogate(units[0]) && units.len() >= 2 {
        seq![pair_value(units[0], units[1]) as char] + decode_utf16(units.skip(2))
    } else {
        seq![units[0] as char] + decode_utf16(units.drop_first())
    }
}

/// The UTF-16 code units of one scalar value.
pub open spec fn encode_utf16_scalar(v: u32) -> Seq<u16> {
    if v < 0x10000 {
        seq![v as u16]
    } else {
        seq![(0xD800 + (v - 0x10000) / 0x400) as u16, (0xDC00 + (v - 0x10000) % 0x400) as u16]
    }
}

/// The UTF-16 code units of `chars`.
pub open spec fn encode_utf16(chars: Seq<char>) -> Seq<u16>
    decreases chars.len(),
{
    if chars.len() == 0 {
        seq![]
    } else {
        encode_utf16_scalar(chars[0] as u32) + encode_utf16(chars.drop_first())
    }
}

/// The 16-bit code units that `bytes` hold, two bytes each, big-endian.
pub open spec fn be_units(bytes: Seq<u8>) -> Seq<u16> {
    Seq::new(bytes.len() / 2, |i: int| be_value(bytes.subrange(2 * i, 2 * i + 2)) as u16)
}

/// The bytes of `units`, two for each, big-endian.
pub open spec fn units_be_bytes(units: Seq<u16>) -> Seq<u8> {
    Seq::new(
        2 * units.len(),
        |j: int|
            if j % 2 == 0 {
                (units[j / 2] / 256) as u8
            } else {
                (units[j / 2] % 256) as u8
            },
    )
}

/// Encoding characters as UTF-16 gives well-formed units that decode back to
/// the same characters.
pub proof fn lemma_utf16_encode_decode(chars: Seq<char>)
    ensures
        valid_utf16(encode_utf16(chars)),
        decode_utf16(encode_utf16(chars)) == chars,
    decreases chars.len(),
{
    if chars.len() > 0 {
        let c = chars[0];
        let v = c as u32;
        let head = encode_utf16_scalar(v);
        let tail = encode_utf16(chars.drop_first());
        let units = encode_utf16(chars);
        lemma_utf16_encode_decode(chars.drop_first());
        assert(vstd::utf8::is_scalar(v)) by {
            vstd::utf8::char_is_scalar(c);
        }
        assert(units == head + tail);
        if v < 0x10000 {
            assert(units.drop_first() =~= tail);
            assert((v as u16) as char == c) by {
                vstd::utf8::char_u32_cast(c, v);
            }
            assert(decode_utf16(units) =~= chars);
        } else {
            let q = (v - 0x10000) / 0x400;
            let r = (v - 0x10000) % 0x400;
            assert(0 <= q < 0x400 && 0 <= r < 0x400 && v == 0x10000 + q * 0x400 + r) by {
                vstd::arithmetic::div_mod::lemma_fundamental_div_mod(v - 0x10000, 0x400);
            }
            assert(units.skip(2) =~= tail);
            assert(pair_value(units[0], units[1]) == v);
            assert((v as int) as char == c) by {
                vstd::utf8::char_u32_cast(c, v);
            }
            assert(decode_utf16(units) =~= chars);
        }
    }
}

/// Reading back the bytes of code units gives the code units.
pub proof fn lemma_be_units_of_bytes(units: Seq<u16>)
    ensures
        be_units(units_be_bytes(units)) == units,
{
    let bytes = units_be_bytes(units);
    assert forall|i: int| 0 <= i < units.len() implies #[trigger] be_units(bytes)[i] == units[i] by {
        let pair = bytes.subrange(2 * i, 2 * i + 2);
        assert(pair.drop_last().drop_last() =~= Seq::<u8>::empty());
        assert((2 * i) / 2 == i && (2 * i + 1) / 2 == i && (2 * i) % 2 == 0 && (2 * i + 1) % 2 == 1);
        assert(pair[0] == units[i] / 256 && pair[1] == units[i] % 256);
        assert(be_value(pair.drop_last()) == be_value(pair.drop_last().drop_last()) * 256 + pair[0]);
        assert(be_value(pair) == pair[0] * 256 + pair[1]);
    }
    assert(be_units(bytes) =~= units);
}

/// Relies on `std::str::from_utf8`: it succeeds exactly on well-formed UTF-8,
/// and the string then holds the characters that the bytes encode.
#[verifier::external_body]
pub(crate) fn str_from_utf8<'a>(bytes: &'a [u8]) -> (res: Result<&'a str, Utf8Error>)
    ensures
        res is Ok <==> valid_utf8(bytes@),
        res is Ok ==> res->Ok_0@ == decode_utf8(bytes@),
{
    std::str::from_utf8(bytes)
}

/// Relies on `String::from_utf16`: it fails exactly when `units` hold an
/// unpaired surrogate, and the string then holds the characters they encode.
#[verifier::external_body]
pub(crate) fn string_from_utf16(units: &[u16]) -> (res: Result<String, FromUtf16Error>)
    ensures
        res is Ok <==> valid_utf16(units@),
        res is Ok ==> res->Ok_0@ == decode_utf16(units@),
{
    String::from_utf16(units)
}

} // verus!
