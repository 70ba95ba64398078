//! Types that know how to decode themselves from a reader, in either byte order.
use untrusted::Reader;
use vstd::prelude::*;

use crate::cursor::{take_byte, take_slice, unread};
use crate::encoding::{
    be_uint, be_value, le_uint, le_value, lemma_be_bound, lemma_le_bound, lemma_pow256_values,
    sign128, sign16, sign32, sign64, sign8, to_signed,
};
use crate::error::Error;

verus! {

/// `res` is what a decoder that should produce `expected` from the unread
/// bytes `before` returned, leaving `after` unread: on success the value, with
/// exactly the bytes it took consumed; on failure the error.
pub open spec fn decodes<T>(
    expected: Result<(T, nat), Error>,
    res: Result<T, Error>,
    before: Seq<u8>,
    after: Seq<u8>,
) -> bool {
    match expected {
        Ok((v, n)) => res == Ok::<T, Error>(v) && n <= before.len() && after == before.skip(n as int),
        Err(e) => res == Err::<T, Error>(e),
    }
}

/// A value of fixed encoded width: `k` bytes taken from the front of `bytes`
/// and turned into a value by `value`, or `EndOfInput` when fewer remain.
pub open spec fn fixed_width<T>(bytes: Seq<u8>, k: nat, value: T) -> Result<(T, nat), Error> {
    if bytes.len() < k {
        Err(Error::EndOfInput)
    } else {
        Ok((value, k))
    }
}

/// A type whose values can be read from a reader in big- or little-endian
/// byte order.
///
/// An implementation states, in `be_decoding` and `le_decoding`, what its
/// reads yield from the unread bytes, and Verus holds `read_be` and `read_le`
/// to that. The integer types and the address types are implementations like
/// any other; `ReaderExt::read_be` and `read_le` dispatch to them.
pub trait FromReader: Sized {
    /// What a big-endian read yields from the unread bytes: the value and the
    /// number of bytes it takes, or the error.
    spec fn be_decoding(bytes: Seq<u8>) -> Result<(Self, nat), Error>;

    /// What a little-endian read yields from the unread bytes.
    spec fn le_decoding(bytes: Seq<u8>) -> Result<(Self, nat), Error>;

    /// Reads as many bytes as needed to build a value, in big-endian order.
    fn read_be(reader: &mut Reader<'_>) -> (res: Result<Self, Error>)
        ensures
            decodes(Self::be_decoding(unread(*old(reader))), res, unread(*old(reader)), unread(*final(reader))),
    ;

    /// Reads as many bytes as needed to build a value, in little-endian order.
    fn read_le(reader: &mut Reader<'_>) -> (res: Result<Self, Error>)
        ensures
            decodes(Self::le_decoding(unread(*old(reader))), res, unread(*old(reader)), unread(*final(reader))),
    ;
}

impl FromReader for u8 {
    open spec fn be_decoding(bytes: Seq<u8>) -> Result<(u8, nat), Error> {
        fixed_width(bytes, 1, bytes[0])
    }

    open spec fn le_decoding(bytes: Seq<u8>) -> Result<(u8, nat), Error> {
        fixed_width(bytes, 1, bytes[0])
    }

    fn read_be(reader: &mut Reader<'_>) -> (res: Result<u8, Error>) {
        match take_byte(reader) {
            Ok(b) => Ok(b),
            Err(_) => Err(Error::EndOfInput),
        }
    }

    fn read_le(reader: &mut Reader<'_>) -> (res: Result<u8, Error>) {
        match take_byte(reader) {
            Ok(b) => Ok(b),
            Err(_) => Err(Error::EndOfInput),
        }
    }
}

impl FromReader for u16 {
    open spec fn be_decoding(bytes: Seq<u8>) -> Result<(u16, nat), Error> {
        fixed_width(bytes, 2, be_value(bytes.take(2)) as u16)
    }

    open spec fn le_decoding(bytes: Seq<u8>) -> Result<(u16, nat), Error> {
        fixed_width(bytes, 2, le_value(bytes.take(2)) as u16)
    }

    fn read_be(reader: &mut Reader<'_>) -> (res: Result<u16, Error>) {
        let bytes = match take_slice(reader, 2) {
            Ok(bytes) => bytes,
            Err(e) => return Err(e),
        };
        proof {
            lemma_be_bound(bytes@);
            lemma_pow256_values();
        }
        Ok(be_uint(bytes) as u16)
    }

    fn read_le(reader: &mut Reader<'_>) -> (res: Result<u16, Error>) {
        let bytes = match take_slice(reader, 2) {
            Ok(bytes) => bytes,
            Err(e) => return Err(e),
        };
        proof {
            lemma_le_bound(bytes@);
            lemma_pow256_values();
        }
        Ok(le_uint(bytes) as u16)
    }
}

impl FromReader for u32 {
    open spec fn be_decoding(bytes: Seq<u8>) -> Result<(u32, nat), Error> {
        fixed_width(bytes, 4, be_value(bytes.take(4)) as u32)
    }

    open spec fn le_decoding(bytes: Seq<u8>) -> Result<(u32, nat), Error> {
        fixed_width(bytes, 4, le_value(bytes.take(4)) as u32)
    }

    fn read_be(reader: &mut Reader<'_>) -> (res: Result<u32, Error>) {
        let bytes = match take_slice(reader, 4) {
            Ok(bytes) => bytes,
            Err(e) => return Err(e),
        };
        proof {
            lemma_be_bound(bytes@);
            lemma_pow256_values();
        }
        Ok(be_uint(bytes) as u32)
    }

    fn read_le(reader: &mut Reader<'_>) -> (res: Result<u32, Error>) {
        let bytes = match take_slice(reader, 4) {
            Ok(bytes) => bytes,
            Err(e) => return Err(e),
        };
        proof {
            lemma_le_bound(bytes@);
            lemma_pow256_values();
        }
        Ok(le_uint(bytes) as u32)
    }
}

impl FromReader for u64 {
    open spec fn be_decoding(bytes: Seq<u8>) -> Result<(u64, nat), Error> {
        fixed_width(bytes, 8, be_value(bytes.take(8)) as u64)
    }

    open spec fn le_decoding(bytes: Seq<u8>) -> Result<(u64, nat), Error> {
        fixed_width(bytes, 8, le_value(bytes.take(8)) as u64)
    }

    fn read_be(reader: &mut Reader<'_>) -> (res: Result<u64, Error>) {
        let bytes = match take_slice(reader, 8) {
            Ok(bytes) => bytes,
            Err(e) => return Err(e),
        };
        proof {
            lemma_be_bound(bytes@);
            lemma_pow256_values();
        }
        Ok(be_uint(bytes) as u64)
    }

    fn read_le(reader: &mut Reader<'_>) -> (res: Result<u64, Error>) {
        let bytes = match take_slice(reader, 8) {
            Ok(bytes) => bytes,
            Err(e) => return Err(e),
        };
        proof {
            lemma_le_bound(bytes@);
            lemma_pow256_values();
        }
        Ok(le_uint(bytes) as u64)
    }
}

impl FromReader for u128 {
    open spec fn be_decoding(bytes: Seq<u8>) -> Result<(u128, nat), Error> {
        fixed_width(bytes, 16, be_value(bytes.take(16)) as u128)
    }

    open spec fn le_decoding(bytes: Seq<u8>) -> Result<(u128, nat), Error> {
        fixed_width(bytes, 16, le_value(bytes.take(16)) as u128)
    }

    fn read_be(reader: &mut Reader<'_>) -> (res: Result<u128, Error>) {
        let bytes = match take_slice(reader, 16) {
            Ok(bytes) => bytes,
            Err(e) => return Err(e),
        };
        proof {
            lemma_be_bound(bytes@);
            lemma_pow256_values();
        }
        Ok(be_uint(bytes) as u128)
    }

    fn read_le(reader: &mut Reader<'_>) -> (res: Result<u128, Error>) {
        let bytes = match take_slice(reader, 16) {
            Ok(bytes) => bytes,
            Err(e) => return Err(e),
        };
        proof {
            lemma_le_bound(bytes@);
            lemma_pow256_values();
        }
        Ok(le_uint(bytes) as u128)
    }
}

impl FromReader for i8 {
    open spec fn be_decoding(bytes: Seq<u8>) -> Result<(i8, nat), Error> {
        fixed_width(bytes, 1, to_signed(be_value(bytes.take(1)), 1) as i8)
    }

    open spec fn le_decoding(bytes: Seq<u8>) -> Result<(i8, nat), Error> {
        fixed_width(bytes, 1, to_signed(le_value(bytes.take(1)), 1) as i8)
    }

    fn read_be(reader: &mut Reader<'_>) -> (res: Result<i8, Error>) {
        let ghost before = unread(*reader);
        match u8::read_be(reader) {
            Ok(r) => {
                proof {
                    lemma_be_bound(before.take(1));
                    lemma_pow256_values();
                }
                Ok(sign8(r))
            },
            Err(e) => Err(e),
        }
    }

    fn read_le(reader: &mut Reader<'_>) -> (res: Result<i8, Error>) {
        let ghost before = unread(*reader);
        match u8::read_le(reader) {
            Ok(r) => {
                proof {
                    lemma_le_bound(before.take(1));
                    lemma_pow256_values();
                }
                Ok(sign8(r))
            },
            Err(e) => Err(e),
        }
    }
}

impl FromReader for i16 {
    open spec fn be_decoding(bytes: Seq<u8>) -> Result<(i16, nat), Error> {
        fixed_width(bytes, 2, to_signed(be_value(bytes.take(2)), 2) as i16)
    }

    open spec fn le_decoding(bytes: Seq<u8>) -> Result<(i16, nat), Error> {
        fixed_width(bytes, 2, to_signed(le_value(bytes.take(2)), 2) as i16)
    }

    fn read_be(reader: &mut Reader<'_>) -> (res: Result<i16, Error>) {
        let ghost before = unread(*reader);
        match u16::read_be(reader) {
            Ok(r) => {
                proof {
                    lemma_be_bound(before.take(2));
                    lemma_pow256_values();
                }
                Ok(sign16(r))
            },
            Err(e) => Err(e),
        }
    }

    fn read_le(reader: &mut Reader<'_>) -> (res: Result<i16, Error>) {
        let ghost before = unread(*reader);
        match u16::read_le(reader) {
            Ok(r) => {
                proof {
                    lemma_le_bound(before.take(2));
                    lemma_pow256_values();
                }
                Ok(sign16(r))
            },
            Err(e) => Err(e),
        }
    }
}

impl FromReader for i32 {
    open spec fn be_decoding(bytes: Seq<u8>) -> Result<(i32, nat), Error> {
        fixed_width(bytes, 4, to_signed(be_value(bytes.take(4)), 4) as i32)
    }

    open spec fn le_decoding(bytes: Seq<u8>) -> Result<(i32, nat), Error> {
        fixed_width(bytes, 4, to_signed(le_value(bytes.take(4)), 4) as i32)
    }

    fn read_be(reader: &mut Reader<'_>) -> (res: Result<i32, Error>) {
        let ghost before = unread(*reader);
        match u32::read_be(reader) {
            Ok(r) => {
                proof {
                    lemma_be_bound(before.take(4));
                    lemma_pow256_values();
                }
                Ok(sign32(r))
            },
            Err(e) => Err(e),
        }
    }

    fn read_le(reader: &mut Reader<'_>) -> (res: Result<i32, Error>) {
        let ghost before = unread(*reader);
        match u32::read_le(reader) {
            Ok(r) => {
                proof {
                    lemma_le_bound(before.take(4));
                    lemma_pow256_values();
                }
                Ok(sign32(r))
            },
            Err(e) => Err(e),
        }
    }
}

impl FromReader for i64 {
    open spec fn be_decoding(bytes: Seq<u8>) -> Result<(i64, nat), Error> {
        fixed_width(bytes, 8, to_signed(be_value(bytes.take(8)), 8) as i64)
    }

    open spec fn le_decoding(bytes: Seq<u8>) -> Result<(i64, nat), Error> {
        fixed_width(bytes, 8, to_signed(le_value(bytes.take(8)), 8) as i64)
    }

    fn read_be(reader: &mut Reader<'_>) -> (res: Result<i64, Error>) {
        let ghost before = unread(*reader);
        match u64::read_be(reader) {
            Ok(r) => {
                proof {
                    lemma_be_bound(before.take(8));
                    lemma_pow256_values();
                }
                Ok(sign64(r))
            },
            Err(e) => Err(e),
        }
    }

    fn read_le(reader: &mut Reader<'_>) -> (res: Result<i64, Error>) {
        let ghost before = unread(*reader);
        match u64::read_le(reader) {
            Ok(r) => {
                proof {
                    lemma_le_bound(before.take(8));
                    lemma_pow256_values();
                }
                Ok(sign64(r))
            },
            Err(e) => Err(e),
        }
    }
}

impl FromReader for i128 {
    open spec fn be_decoding(bytes: Seq<u8>) -> Result<(i128, nat), Error> {
        fixed_width(bytes, 16, to_signed(be_value(bytes.take(16)), 16) as i128)
    }

    open spec fn le_decoding(bytes: Seq<u8>) -> Result<(i128, nat), Error> {
        fixed_width(bytes, 16, to_signed(le_value(bytes.take(16)), 16) as i128)
    }

    fn read_be(reader: &mut Reader<'_>) -> (res: Result<i128, Error>) {
        let ghost before = unread(*reader);
        match u128::read_be(reader) {
            Ok(r) => {
                proof {
                    lemma_be_bound(before.take(16));
                    lemma_pow256_values();
                }
                Ok(sign128(r))
            },
            Err(e) => Err(e),
        }
    }

    fn read_le(reader: &mut Reader<'_>) -> (res: Result<i128, Error>) {
        let ghost before = unread(*reader);
        match u128::read_le(reader) {
            Ok(r) => {
                proof {
                    lemma_le_bound(before.take(16));
                    lemma_pow256_values();
                }
                Ok(sign128(r))
            },
            Err(e) => Err(e),
        }
    }
}

} // verus!
