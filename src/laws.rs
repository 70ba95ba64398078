//! Properties that hold across the primitives, stated over the same
//! functions their contracts use.
use vstd::prelude::*;
use vstd::utf8::{decode_utf8, encode_utf8, valid_utf8};

use crate::encoding::{
    be_bytes, be_value, from_signed, le_bytes, le_value, lemma_be_bound, lemma_be_bytes_value,
    lemma_be_injective, lemma_le_bound, lemma_le_bytes_value, lemma_le_is_reversed_be,
    lemma_pow256_facts, pow256, to_signed,
};
use crate::text::{
    be_units, decode_utf16, encode_utf16, lemma_be_units_of_bytes, lemma_utf16_encode_decode,
    units_be_bytes, valid_utf16,
};

verus! {

/// Every unsigned value that fits in `n` bytes survives being written into
/// `n` bytes and read back, in either byte order.
pub proof fn law_unsigned_round_trip(v: int, n: nat)
    requires
        0 <= v < pow256(n),
    ensures
        be_bytes(v, n).len() == n,
        be_value(be_bytes(v, n)) == v,
        le_bytes(v, n).len() == n,
        le_value(le_bytes(v, n)) == v,
{
    lemma_be_bytes_value(v, n);
    lemma_le_bytes_value(v, n);
}

/// Every signed value that fits in `n` bytes survives being written as its
/// two's-complement pattern into `n` bytes and read back as signed, in either
/// byte order.
pub proof fn law_signed_round_trip(x: int, n: nat)
    requires
        n > 0,
        -(pow256(n) / 2) <= x < pow256(n) / 2,
    ensures
        to_signed(be_value(be_bytes(from_signed(x, n), n)), n) == x,
        to_signed(le_value(le_bytes(from_signed(x, n), n)), n) == x,
{
    lemma_pow256_facts((n - 1) as nat);
    assert(pow256(n) / 2 == 128 * pow256((n - 1) as nat));
    lemma_be_bytes_value(from_signed(x, n), n);
    lemma_le_bytes_value(from_signed(x, n), n);
}

/// The same bytes read big-endian and little-endian give the same value,
/// signed or unsigned, exactly when they read the same backwards.
pub proof fn law_byte_order(bytes: Seq<u8>)
    ensures
        (be_value(bytes) == le_value(bytes)) <==> bytes == bytes.reverse(),
        (to_signed(be_value(bytes), bytes.len()) == to_signed(le_value(bytes), bytes.len()))
            <==> bytes == bytes.reverse(),
{
    lemma_le_is_reversed_be(bytes);
    lemma_be_bound(bytes);
    lemma_le_bound(bytes);
    if be_value(bytes) == le_value(bytes) {
        lemma_be_injective(bytes, bytes.reverse());
    }
}

/// Text written as UTF-8 is well-formed and decodes back to the same text.
pub proof fn law_utf8_round_trip(chars: Seq<char>)
    ensures
        valid_utf8(encode_utf8(chars)),
        decode_utf8(encode_utf8(chars)) == chars,
{
    vstd::utf8::encode_utf8_valid_utf8(chars);
    vstd::utf8::encode_utf8_decode_utf8(chars);
}

/// Text written as big-endian UTF-16 bytes is well-formed and decodes back to
/// the same text.
pub proof fn law_utf16_round_trip(chars: Seq<char>)
    ensures
        units_be_bytes(encode_utf16(chars)).len() % 2 == 0,
        valid_utf16(be_units(units_be_bytes(encode_utf16(chars)))),
        decode_utf16(be_units(units_be_bytes(encode_utf16(chars)))) == chars,
{
    lemma_be_units_of_bytes(encode_utf16(chars));
    lemma_utf16_encode_decode(chars);
}

} // verus!
