//! The decoding primitives, as methods on a reader.
use untrusted::{EndOfInput, Input, Reader};
use vstd::prelude::*;
use vstd::utf8::{decode_utf8, valid_utf8};

use crate::addr::{Ipv4Addr, Ipv6Addr};
use crate::cursor::{input_bytes, input_as_slice, take_byte, take_bytes, unread};
use crate::encoding::{
    be_bytes, be_value, le_value, lemma_be_bound, lemma_be_concat, lemma_be_take_step,
    lemma_be_value_bytes, lemma_le_bound, lemma_le_concat, lemma_pow256_values, sign8, to_signed,
};
use crate::error::Error;
use crate::from_reader::{decodes, FromReader};
use crate::text::{be_units, decode_utf16, str_from_utf8, string_from_utf16, valid_utf16};

verus! {

/// A read that needs `k` bytes fails exactly when fewer than `k` remain, and
/// then with `EndOfInput`.
pub open spec fn fails_iff_short<T>(res: Result<T, Error>, before: Seq<u8>, k: nat) -> bool {
    &&& res is Err <==> before.len() < k
    &&& res is Err ==> res == Err::<T, Error>(Error::EndOfInput)
}

/// Exactly the first `k` bytes of `before` were consumed, leaving `after`.
pub open spec fn consumed(before: Seq<u8>, after: Seq<u8>, k: nat) -> bool {
    k <= before.len() && after == before.skip(k as int)
}

/// Decoding primitives on top of a reader's single-byte and multi-byte reads.
pub trait ReaderExt<'a> {
    /// The bytes not consumed yet.
    spec fn rest(&self) -> Seq<u8>;

    /// Read one byte.
    fn read_byte(&mut self) -> (res: Result<u8, EndOfInput>)
        ensures
            old(self).rest().len() == 0 ==> res is Err && final(self).rest() == old(self).rest(),
            old(self).rest().len() > 0 ==> res == Ok::<u8, EndOfInput>(old(self).rest()[0])
                && final(self).rest() == old(self).rest().drop_first(),
    ;

    /// Skips `num_bytes` of the input, returning the skipped input as an
    /// `Input`, or `EndOfInput` when fewer remain.
    fn read_bytes(&mut self, num_bytes: usize) -> (res: Result<Input<'a>, EndOfInput>)
        ensures
            old(self).rest().len() < num_bytes ==> res is Err && final(self).rest() == old(
                self,
            ).rest(),
            old(self).rest().len() >= num_bytes ==> res is Ok && input_bytes(res->Ok_0) == old(
                self,
            ).rest().take(num_bytes as int) && final(self).rest() == old(self).rest().skip(
                num_bytes as int,
            ),
    ;

    /// Read as many bytes as needed to build a `T` in big-endian byte order.
    fn read_be<T: FromReader>(&mut self) -> (res: Result<T, Error>)
        ensures
            decodes(T::be_decoding(old(self).rest()), res, old(self).rest(), final(self).rest()),
    ;

    /// Read as many bytes as needed to build a `T` in little-endian byte order.
    fn read_le<T: FromReader>(&mut self) -> (res: Result<T, Error>)
        ensures
            decodes(T::le_decoding(old(self).rest()), res, old(self).rest(), final(self).rest()),
    ;

    /// Reads an 8-bit unsigned integer.
    fn read_u8(&mut self) -> (res: Result<u8, Error>)
        ensures
            fails_iff_short(res, old(self).rest(), 1),
            res is Ok ==> res->Ok_0 == old(self).rest()[0] && consumed(
                old(self).rest(),
                final(self).rest(),
                1,
            ),
    {
        match self.read_byte() {
            Ok(b) => Ok(b),
            Err(_) => Err(Error::EndOfInput),
        }
    }

    /// Reads a 16-bit unsigned integer, big-endian.
    fn read_u16be(&mut self) -> (res: Result<u16, Error>)
        ensures
            fails_iff_short(res, old(self).rest(), 2),
            res is Ok ==> res->Ok_0 == be_value(old(self).rest().take(2)) && consumed(
                old(self).rest(),
                final(self).rest(),
                2,
            ),
    {
        proof {
            lemma_be_bound(self.rest().take(2));
            lemma_pow256_values();
        }
        self.read_be()
    }

    /// Reads a 24-bit unsigned integer, big-endian, into a `u32`: a 16-bit
    /// chunk, then an 8-bit one.
    fn read_u24be(&mut self) -> (res: Result<u32, Error>)
        ensures
            fails_iff_short(res, old(self).rest(), 3),
            res is Ok ==> res->Ok_0 == be_value(old(self).rest().take(3)) && consumed(
                old(self).rest(),
                final(self).rest(),
                3,
            ),
    {
        let ghost before = self.rest();
        let b1 = match self.read_u16be() {
            Ok(v) => v as u32,
            Err(e) => return Err(e),
        };
        let b2 = match self.read_u8() {
            Ok(v) => v as u32,
            Err(e) => return Err(e),
        };
        proof {
            lemma_be_take_step(before, 2);
            assert(before.skip(2).skip(1) =~= before.skip(3));
        }
        assert(b1 << 8 == b1 * 256) by (bit_vector)
            requires
                b1 < 0x1_0000,
        ;
        Ok((b1 << 8) + b2)
    }

    /// Reads a 32-bit unsigned integer, big-endian.
    fn read_u32be(&mut self) -> (res: Result<u32, Error>)
        ensures
            fails_iff_short(res, old(self).rest(), 4),
            res is Ok ==> res->Ok_0 == be_value(old(self).rest().take(4)) && consumed(
                old(self).rest(),
                final(self).rest(),
                4,
            ),
    {
        proof {
            lemma_be_bound(self.rest().take(4));
            lemma_pow256_values();
        }
        self.read_be()
    }

    /// Reads a 48-bit unsigned integer, big-endian, into a `u64`: two 24-bit
    /// chunks, the high one first.
    fn read_u48be(&mut self) -> (res: Result<u64, Error>)
        ensures
            fails_iff_short(res, old(self).rest(), 6),
            res is Ok ==> res->Ok_0 == be_value(old(self).rest().take(6)) && consumed(
                old(self).rest(),
                final(self).rest(),
                6,
            ),
    {
        let ghost before = self.rest();
        let b1 = match self.read_u24be() {
            Ok(v) => v as u64,
            Err(e) => return Err(e),
        };
        let b2 = match self.read_u24be() {
            Ok(v) => v as u64,
            Err(e) => return Err(e),
        };
        proof {
            let mid = before.skip(3);
            assert(before.take(6) =~= before.take(3) + mid.take(3));
            lemma_be_concat(before.take(3), mid.take(3));
            lemma_be_bound(before.take(3));
            lemma_be_bound(mid.take(3));
            lemma_pow256_values();
            assert(mid.skip(3) =~= before.skip(6));
        }
        assert(b1 << 24 == b1 * 0x100_0000) by (bit_vector)
            requires
                b1 < 0x100_0000,
        ;
        Ok((b1 << 24) + b2)
    }

    /// Reads a 64-bit unsigned integer, big-endian.
    fn read_u64be(&mut self) -> (res: Result<u64, Error>)
        ensures
            fails_iff_short(res, old(self).rest(), 8),
            res is Ok ==> res->Ok_0 == be_value(old(self).rest().take(8)) && consumed(
                old(self).rest(),
                final(self).rest(),
                8,
            ),
    {
        proof {
            lemma_be_bound(self.rest().take(8));
            lemma_pow256_values();
        }
        self.read_be()
    }

    /// Reads a 128-bit unsigned integer, big-endian.
    fn read_u128be(&mut self) -> (res: Result<u128, Error>)
        ensures
            fails_iff_short(res, old(self).rest(), 16),
            res is Ok ==> res->Ok_0 == be_value(old(self).rest().take(16)) && consumed(
                old(self).rest(),
                final(self).rest(),
                16,
            ),
    {
        proof {
            lemma_be_bound(self.rest().take(16));
            lemma_pow256_values();
        }
        self.read_be()
    }

    /// Reads a 16-bit unsigned integer, little-endian.
    fn read_u16le(&mut self) -> (res: Result<u16, Error>)
        ensures
            fails_iff_short(res, old(self).rest(), 2),
            res is Ok ==> res->Ok_0 == le_value(old(self).rest().take(2)) && consumed(
                old(self).rest(),
                final(self).rest(),
                2,
            ),
    {
        proof {
            lemma_le_bound(self.rest().take(2));
            lemma_pow256_values();
        }
        self.read_le()
    }

    /// Reads a 24-bit unsigned integer, little-endian, into a `u32`: the low
    /// byte, then a 16-bit chunk.
    fn read_u24le(&mut self) -> (res: Result<u32, Error>)
        ensures
            fails_iff_short(res, old(self).rest(), 3),
            res is Ok ==> res->Ok_0 == le_value(old(self).rest().take(3)) && consumed(
                old(self).rest(),
                final(self).rest(),
                3,
            ),
    {
        let ghost before = self.rest();
        let b2 = match self.read_u8() {
            Ok(v) => v as u32,
            Err(e) => return Err(e),
        };
        let b1 = match self.read_u16le() {
            Ok(v) => v as u32,
            Err(e) => return Err(e),
        };
        proof {
            let mid = before.skip(1);
            assert(before.take(3) =~= before.take(1) + mid.take(2));
            lemma_le_concat(before.take(1), mid.take(2));
            assert(before.take(1).drop_first() =~= Seq::<u8>::empty());
            assert(le_value(before.take(1).drop_first()) == 0);
            assert(le_value(before.take(1)) == before[0]);
            lemma_pow256_values();
            assert(mid.skip(2) =~= before.skip(3));
        }
        assert(b1 << 8 == b1 * 256) by (bit_vector)
            requires
                b1 < 0x1_0000,
        ;
        Ok((b1 << 8) + b2)
    }

    /// Reads a 32-bit unsigned integer, little-endian.
    fn read_u32le(&mut self) -> (res: Result<u32, Error>)
        ensures
            fails_iff_short(res, old(self).rest(), 4),
            res is Ok ==> res->Ok_0 == le_value(old(self).rest().take(4)) && consumed(
                old(self).rest(),
                final(self).rest(),
                4,
            ),
    {
        proof {
            lemma_le_bound(self.rest().take(4));
            lemma_pow256_values();
        }
        self.read_le()
    }

    /// Reads a 48-bit unsigned integer, little-endian, into a `u64`: two
    /// 24-bit chunks, the low one first.
    fn read_u48le(&mut self) -> (res: Result<u64, Error>)
        ensures
            fails_iff_short(res, old(self).rest(), 6),
            res is Ok ==> res->Ok_0 == le_value(old(self).rest().take(6)) && consumed(
                old(self).rest(),
                final(self).rest(),
                6,
            ),
    {
        let ghost before = self.rest();
        let b2 = match self.read_u24le() {
            Ok(v) => v as u64,
            Err(e) => return Err(e),
        };
        let b1 = match self.read_u24le() {
            Ok(v) => v as u64,
            Err(e) => return Err(e),
        };
        proof {
            let mid = before.skip(3);
            assert(before.take(6) =~= before.take(3) + mid.take(3));
            lemma_le_concat(before.take(3), mid.take(3));
            lemma_le_bound(before.take(3));
            lemma_le_bound(mid.take(3));
            lemma_pow256_values();
            assert(mid.skip(3) =~= before.skip(6));
        }
        assert(b1 << 24 == b1 * 0x100_0000) by (bit_vector)
            requires
                b1 < 0x100_0000,
        ;
        Ok((b1 << 24) + b2)
    }

    /// Reads a 64-bit unsigned integer, little-endian.
    fn read_u64le(&mut self) -> (res: Result<u64, Error>)
        ensures
            fails_iff_short(res, old(self).rest(), 8),
            res is Ok ==> res->Ok_0 == le_value(old(self).rest().take(8)) && consumed(
                old(self).rest(),
                final(self).rest(),
                8,
            ),
    {
        proof {
            lemma_le_bound(self.rest().take(8));
            lemma_pow256_values();
        }
        self.read_le()
    }

    /// Reads a 128-bit unsigned integer, little-endian.
    fn read_u128le(&mut self) -> (res: Result<u128, Error>)
        ensures
            fails_iff_short(res, old(self).rest(), 16),
            res is Ok ==> res->Ok_0 == le_value(old(self).rest().take(16)) && consumed(
                old(self).rest(),
                final(self).rest(),
                16,
            ),
    {
        proof {
            lemma_le_bound(self.rest().take(16));
            lemma_pow256_values();
        }
        self.read_le()
    }

    /// Reads an 8-bit signed integer.
    fn read_i8(&mut self) -> (res: Result<i8, Error>)
        ensures
            fails_iff_short(res, old(self).rest(), 1),
            res is Ok ==> res->Ok_0 == to_signed(old(self).rest()[0] as int, 1) && consumed(
                old(self).rest(),
                final(self).rest(),
                1,
            ),
    {
        match self.read_u8() {
            Ok(v) => Ok(sign8(v)),
            Err(e) => Err(e),
        }
    }

    /// Reads a 16-bit signed integer, big-endian.
    fn read_i16be(&mut self) -> (res: Result<i16, Error>)
        ensures
            fails_iff_short(res, old(self).rest(), 2),
            res is Ok ==> res->Ok_0 == to_signed(be_value(old(self).rest().take(2)), 2) && consumed(
                old(self).rest(),
                final(self).rest(),
                2,
            ),
    {
        proof {
            lemma_be_bound(self.rest().take(2));
            lemma_pow256_values();
        }
        self.read_be()
    }

    /// Reads a 24-bit signed integer, big-endian, into an `i32`: a signed
    /// 16-bit chunk, then an unsigned byte.
    fn read_i24be(&mut self) -> (res: Result<i32, Error>)
        ensures
            fails_iff_short(res, old(self).rest(), 3),
            res is Ok ==> res->Ok_0 == to_signed(be_value(old(self).rest().take(3)), 3) && consumed(
                old(self).rest(),
                final(self).rest(),
                3,
            ),
    {
        let ghost before = self.rest();
        let b1 = match self.read_i16be() {
            Ok(v) => v as i32,
            Err(e) => return Err(e),
        };
        let b2 = match self.read_u8() {
            Ok(v) => v as i32,
            Err(e) => return Err(e),
        };
        proof {
            lemma_be_take_step(before, 2);
            lemma_be_bound(before.take(2));
            lemma_pow256_values();
            assert(before.skip(2).skip(1) =~= before.skip(3));
        }
        assert(b1 << 8 == b1 * 256) by (bit_vector)
            requires
                -0x8000 <= b1 < 0x8000,
        ;
        Ok((b1 << 8) + b2)
    }

    /// Reads a 32-bit signed integer, big-endian.
    fn read_i32be(&mut self) -> (res: Result<i32, Error>)
        ensures
            fails_iff_short(res, old(self).rest(), 4),
            res is Ok ==> res->Ok_0 == to_signed(be_value(old(self).rest().take(4)), 4) && consumed(
                old(self).rest(),
                final(self).rest(),
                4,
            ),
    {
        proof {
            lemma_be_bound(self.rest().take(4));
            lemma_pow256_values();
        }
        self.read_be()
    }

    /// Reads a 48-bit signed integer, big-endian, into an `i64`: a signed
    /// 24-bit chunk, then an unsigned one.
    fn read_i48be(&mut self) -> (res: Result<i64, Error>)
        ensures
            fails_iff_short(res, old(self).rest(), 6),
            res is Ok ==> res->Ok_0 == to_signed(be_value(old(self).rest().take(6)), 6) && consumed(
                old(self).rest(),
                final(self).rest(),
                6,
            ),
    {
        let ghost before = self.rest();
        let b1 = match self.read_i24be() {
            Ok(v) => v as i64,
            Err(e) => return Err(e),
        };
        let b2 = match self.read_u24be() {
            Ok(v) => v as i64,
            Err(e) => return Err(e),
        };
        proof {
            let mid = before.skip(3);
            assert(before.take(6) =~= before.take(3) + mid.take(3));
            lemma_be_concat(before.take(3), mid.take(3));
            lemma_be_bound(before.take(3));
            lemma_be_bound(mid.take(3));
            lemma_pow256_values();
            assert(mid.skip(3) =~= before.skip(6));
        }
        assert(b1 << 24 == b1 * 0x100_0000) by (bit_vector)
            requires
                -0x80_0000 <= b1 < 0x80_0000,
        ;
        Ok((b1 << 24) + b2)
    }

    /// Reads a 64-bit signed integer, big-endian.
    fn read_i64be(&mut self) -> (res: Result<i64, Error>)
        ensures
            fails_iff_short(res, old(self).rest(), 8),
            res is Ok ==> res->Ok_0 == to_signed(be_value(old(self).rest().take(8)), 8) && consumed(
                old(self).rest(),
                final(self).rest(),
                8,
            ),
    {
        proof {
            lemma_be_bound(self.rest().take(8));
            lemma_pow256_values();
        }
        self.read_be()
    }

    /// Reads a 128-bit signed integer, big-endian.
    fn read_i128be(&mut self) -> (res: Result<i128, Error>)
        ensures
            fails_iff_short(res, old(self).rest(), 16),
            res is Ok ==> res->Ok_0 == to_signed(be_value(old(self).rest().take(16)), 16) && consumed(
                old(self).rest(),
                final(self).rest(),
                16,
            ),
    {
        proof {
            lemma_be_bound(self.rest().take(16));
            lemma_pow256_values();
        }
        self.read_be()
    }

    /// Reads a 16-bit signed integer, little-endian.
    fn read_i16le(&mut self) -> (res: Result<i16, Error>)
        ensures
            fails_iff_short(res, old(self).rest(), 2),
            res is Ok ==> res->Ok_0 == to_signed(le_value(old(self).rest().take(2)), 2) && consumed(
                old(self).rest(),
                final(self).rest(),
                2,
            ),
    {
        proof {
            lemma_le_bound(self.rest().take(2));
            lemma_pow256_values();
        }
        self.read_le()
    }

    /// Reads a 24-bit signed integer, little-endian, into an `i32`: the low
    /// byte, then a signed 16-bit chunk.
    fn read_i24le(&mut self) -> (res: Result<i32, Error>)
        ensures
            fails_iff_short(res, old(self).rest(), 3),
            res is Ok ==> res->Ok_0 == to_signed(le_value(old(self).rest().take(3)), 3) && consumed(
                old(self).rest(),
                final(self).rest(),
                3,
            ),
    {
        let ghost before = self.rest();
        let b2 = match self.read_u8() {
            Ok(v) => v as i32,
            Err(e) => return Err(e),
        };
        let b1 = match self.read_i16le() {
            Ok(v) => v as i32,
            Err(e) => return Err(e),
        };
        proof {
            let mid = before.skip(1);
            assert(before.take(3) =~= before.take(1) + mid.take(2));
            lemma_le_concat(before.take(1), mid.take(2));
            assert(before.take(1).drop_first() =~= Seq::<u8>::empty());
            assert(le_value(before.take(1).drop_first()) == 0);
            assert(le_value(before.take(1)) == before[0]);
            lemma_le_bound(mid.take(2));
            lemma_pow256_values();
            assert(mid.skip(2) =~= before.skip(3));
        }
        assert(b1 << 8 == b1 * 256) by (bit_vector)
            requires
                -0x8000 <= b1 < 0x8000,
        ;
        Ok((b1 << 8) + b2)
    }

    /// Reads a 32-bit signed integer, little-endian.
    fn read_i32le(&mut self) -> (res: Result<i32, Error>)
        ensures
            fails_iff_short(res, old(self).rest(), 4),
            res is Ok ==> res->Ok_0 == to_signed(le_value(old(self).rest().take(4)), 4) && consumed(
                old(self).rest(),
                final(self).rest(),
                4,
            ),
    {
        proof {
            lemma_le_bound(self.rest().take(4));
            lemma_pow256_values();
        }
        self.read_le()
    }

    /// Reads a 48-bit signed integer, little-endian, into an `i64`: an
    /// unsigned 24-bit chunk, then a signed one.
    fn read_i48le(&mut self) -> (res: Result<i64, Error>)
        ensures
            fails_iff_short(res, old(self).rest(), 6),
            res is Ok ==> res->Ok_0 == to_signed(le_value(old(self).rest().take(6)), 6) && consumed(
                old(self).rest(),
                final(self).rest(),
                6,
            ),
    {
        let ghost before = self.rest();
        let b2 = match self.read_u24le() {
            Ok(v) => v as i64,
            Err(e) => return Err(e),
        };
        let b1 = match self.read_i24le() {
            Ok(v) => v as i64,
            Err(e) => return Err(e),
        };
        proof {
            let mid = before.skip(3);
            assert(before.take(6) =~= before.take(3) + mid.take(3));
            lemma_le_concat(before.take(3), mid.take(3));
            lemma_le_bound(before.take(3));
            lemma_le_bound(mid.take(3));
            lemma_pow256_values();
            assert(mid.skip(3) =~= before.skip(6));
        }
        assert(b1 << 24 == b1 * 0x100_0000) by (bit_vector)
            requires
                -0x80_0000 <= b1 < 0x80_0000,
        ;
        Ok((b1 << 24) + b2)
    }

    /// Reads a 64-bit signed integer, little-endian.
    fn read_i64le(&mut self) -> (res: Result<i64, Error>)
        ensures
            fails_iff_short(res, old(self).rest(), 8),
            res is Ok ==> res->Ok_0 == to_signed(le_value(old(self).rest().take(8)), 8) && consumed(
                old(self).rest(),
                final(self).rest(),
                8,
            ),
    {
        proof {
            lemma_le_bound(self.rest().take(8));
            lemma_pow256_values();
        }
        self.read_le()
    }

    /// Reads a 128-bit signed integer, little-endian.
    fn read_i128le(&mut self) -> (res: Result<i128, Error>)
        ensures
            fails_iff_short(res, old(self).rest(), 16),
            res is Ok ==> res->Ok_0 == to_signed(le_value(old(self).rest().take(16)), 16) && consumed(
                old(self).rest(),
                final(self).rest(),
                16,
            ),
    {
        proof {
            lemma_le_bound(self.rest().take(16));
            lemma_pow256_values();
        }
        self.read_le()
    }

    /// Reads `num_bytes` bytes as a slice of the input, so that they can be
    /// handed to code that does not use a reader.
    fn read_bytes_less_safe(&mut self, num_bytes: usize) -> (res: Result<&'a [u8], Error>)
        ensures
            fails_iff_short(res, old(self).rest(), num_bytes as nat),
            res is Err ==> final(self).rest() == old(self).rest(),
            res is Ok ==> res->Ok_0@ == old(self).rest().take(num_bytes as int) && consumed(
                old(self).rest(),
                final(self).rest(),
                num_bytes as nat,
            ),
    {
        match self.read_bytes(num_bytes) {
            Ok(v) => Ok(input_as_slice(&v)),
            Err(_) => Err(Error::EndOfInput),
        }
    }

    /// Reads `num_bytes` bytes (not characters) as UTF-8 text.
    fn read_utf8(&mut self, num_bytes: usize) -> (res: Result<&'a str, Error>)
        ensures
            old(self).rest().len() < num_bytes ==> res == Err::<&str, Error>(Error::EndOfInput)
                && final(self).rest() == old(self).rest(),
            old(self).rest().len() >= num_bytes ==> consumed(
                old(self).rest(),
                final(self).rest(),
                num_bytes as nat,
            ),
            old(self).rest().len() >= num_bytes && valid_utf8(old(self).rest().take(num_bytes as int))
                ==> res is Ok && res->Ok_0@ == decode_utf8(old(self).rest().take(num_bytes as int)),
            old(self).rest().len() >= num_bytes && !valid_utf8(old(self).rest().take(num_bytes as int))
                ==> res == Err::<&str, Error>(Error::ParseError),
    {
        let buf = match self.read_bytes_less_safe(num_bytes) {
            Ok(b) => b,
            Err(e) => return Err(e),
        };
        match str_from_utf8(buf) {
            Ok(s) => Ok(s),
            Err(_) => Err(Error::ParseError),
        }
    }

    /// Reads `num_bytes` bytes (not characters) as UTF-16 text made of
    /// big-endian code units. An odd count is refused before anything is read.
    fn read_utf16(&mut self, num_bytes: usize) -> (res: Result<String, Error>)
        ensures
            num_bytes % 2 == 1 ==> res == Err::<String, Error>(Error::ParseError) && final(self).rest()
                == old(self).rest(),
            num_bytes % 2 == 0 && old(self).rest().len() < num_bytes ==> res == Err::<
                String,
                Error,
            >(Error::EndOfInput),
            num_bytes % 2 == 0 && old(self).rest().len() >= num_bytes ==> consumed(
                old(self).rest(),
                final(self).rest(),
                num_bytes as nat,
            ),
            num_bytes % 2 == 0 && old(self).rest().len() >= num_bytes && valid_utf16(
                be_units(old(self).rest().take(num_bytes as int)),
            ) ==> res is Ok && res->Ok_0@ == decode_utf16(
                be_units(old(self).rest().take(num_bytes as int)),
            ),
            num_bytes % 2 == 0 && old(self).rest().len() >= num_bytes && !valid_utf16(
                be_units(old(self).rest().take(num_bytes as int)),
            ) ==> res == Err::<String, Error>(Error::ParseError),
    {
        if num_bytes % 2 != 0 {
            return Err(Error::ParseError);
        }
        let len16 = num_bytes / 2;
        let ghost before = self.rest();
        let mut buf: Vec<u16> = Vec::with_capacity(len16);
        let mut i: usize = 0;
        assert(be_units(before.take(0)) =~= buf@);
        while i < len16
            invariant
                before == old(self).rest(),
                len16 == num_bytes / 2,
                num_bytes % 2 == 0,
                i <= len16,
                2 * i <= before.len(),
                self.rest() == before.skip(2 * i),
                buf@ == be_units(before.take(2 * i)),
            decreases len16 - i,
        {
            let ghost here = self.rest();
            let b = match self.read_u16be() {
                Ok(b) => b,
                Err(e) => {
                    assert(here.len() == before.len() - 2 * i);
                    return Err(e);
                },
            };
            buf.push(b);
            proof {
                let next = before.take(2 * i + 2);
                assert(here.skip(2) =~= before.skip(2 * i + 2));
                lemma_be_bound(here.take(2));
                lemma_pow256_values();
                assert forall|j: int| 0 <= j < i + 1 implies #[trigger] be_units(next)[j] == buf@[j] by {
                    if j < i {
                        assert(next.subrange(2 * j, 2 * j + 2) =~= before.take(2 * i).subrange(
                            2 * j,
                            2 * j + 2,
                        ));
                    } else {
                        assert(next.subrange(2 * j, 2 * j + 2) =~= here.take(2));
                    }
                }
                assert(buf@ =~= be_units(next));
            }
            i = i + 1;
        }
        assert(before.take(num_bytes as int) =~= before.take(2 * len16));
        match string_from_utf16(buf.as_slice()) {
            Ok(s) => Ok(s),
            Err(_) => Err(Error::ParseError),
        }
    }

    /// Reads an IPv4 address: a big-endian 32-bit value.
    fn read_ipv4addr(&mut self) -> (res: Result<Ipv4Addr, Error>)
        ensures
            fails_iff_short(res, old(self).rest(), 4),
            res is Ok ==> res->Ok_0.bits == be_value(old(self).rest().take(4)) && be_bytes(
                res->Ok_0.bits as int,
                4,
            ) == old(self).rest().take(4) && consumed(old(self).rest(), final(self).rest(), 4),
    {
        let ghost before = self.rest();
        match self.read_u32be() {
            Ok(v) => {
                proof {
                    lemma_be_value_bytes(before.take(4));
                }
                Ok(Ipv4Addr::from_bits(v))
            },
            Err(e) => Err(e),
        }
    }

    /// Reads an IPv6 address: a big-endian 128-bit value.
    fn read_ipv6addr(&mut self) -> (res: Result<Ipv6Addr, Error>)
        ensures
            fails_iff_short(res, old(self).rest(), 16),
            res is Ok ==> res->Ok_0.bits == be_value(old(self).rest().take(16)) && be_bytes(
                res->Ok_0.bits as int,
                16,
            ) == old(self).rest().take(16) && consumed(old(self).rest(), final(self).rest(), 16),
    {
        let ghost before = self.rest();
        match self.read_u128be() {
            Ok(v) => {
                proof {
                    lemma_be_value_bytes(before.take(16));
                }
                Ok(Ipv6Addr::from_bits(v))
            },
            Err(e) => Err(e),
        }
    }
}

impl<'a> ReaderExt<'a> for Reader<'a> {
    open spec fn rest(&self) -> Seq<u8> {
        unread(*self)
    }

    fn read_byte(&mut self) -> (res: Result<u8, EndOfInput>) {
        take_byte(self)
    }

    fn read_bytes(&mut self, num_bytes: usize) -> (res: Result<Input<'a>, EndOfInput>) {
        take_bytes(self, num_bytes)
    }

    fn read_be<T: FromReader>(&mut self) -> (res: Result<T, Error>) {
        T::read_be(self)
    }

    fn read_le<T: FromReader>(&mut self) -> (res: Result<T, Error>) {
        T::read_le(self)
    }
}

} // verus!
