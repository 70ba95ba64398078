//! Network addresses as plain values: their bits, first octet most significant.
use vstd::prelude::*;

use untrusted::Reader;

use crate::cursor::unread;
use crate::encoding::{
    be_bytes, be_value, le_value, lemma_be_bound, lemma_le_bound, lemma_pow256_values, store_be,
};
use crate::error::Error;
use crate::from_reader::{fixed_width, FromReader};
use crate::reader_ext::ReaderExt;

verus! {

/// An IPv4 address. `bits` holds the four octets, the first one most
/// significant; every bit pattern is an address.
#[derive(Clone, Copy, Debug, PartialEq, Eq, Structural)]
pub struct Ipv4Addr {
    pub bits: u32,
}

/// An IPv6 address. `bits` holds the sixteen octets, the first one most
/// significant; every bit pattern is an address.
#[derive(Clone, Copy, Debug, PartialEq, Eq, Structural)]
pub struct Ipv6Addr {
    pub bits: u128,
}

impl Ipv4Addr {
    /// The address whose 32 bits are `bits`.
    pub fn from_bits(bits: u32) -> (r: Ipv4Addr)
        ensures
            r.bits == bits,
    {
        Ipv4Addr { bits }
    }

    /// The 32 bits of the address.
    pub fn to_bits(&self) -> (r: u32)
        ensures
            r == self.bits,
    {
        self.bits
    }

    /// The four octets of the address, in order.
    pub fn octets(&self) -> (r: [u8; 4])
        ensures
            r@ == be_bytes(self.bits as int, 4),
    {
        let mut out = [0u8; 4];
        store_be(&mut out, self.bits as u128);
        out
    }
}

impl Ipv6Addr {
    /// The address whose 128 bits are `bits`.
    pub fn from_bits(bits: u128) -> (r: Ipv6Addr)
        ensures
            r.bits == bits,
    {
        Ipv6Addr { bits }
    }

    /// The 128 bits of the address.
    pub fn to_bits(&self) -> (r: u128)
        ensures
            r == self.bits,
    {
        self.bits
    }

    /// The sixteen octets of the address, in order.
    pub fn octets(&self) -> (r: [u8; 16])
        ensures
            r@ == be_bytes(self.bits as int, 16),
    {
        let mut out = [0u8; 16];
        store_be(&mut out, self.bits);
        out
    }
}

impl From<u32> for Ipv4Addr {
    fn from(bits: u32) -> (r: Ipv4Addr)
        ensures
            r.bits == bits,
    {
        Ipv4Addr { bits }
    }
}

impl vstd::std_specs::convert::FromSpecImpl<u32> for Ipv4Addr {
    open spec fn obeys_from_spec() -> bool {
        true
    }

    open spec fn from_spec(v: u32) -> Ipv4Addr {
        Ipv4Addr { bits: v }
    }
}

impl From<u128> for Ipv6Addr {
    fn from(bits: u128) -> (r: Ipv6Addr)
        ensures
            r.bits == bits,
    {
        Ipv6Addr { bits }
    }
}

impl vstd::std_specs::convert::FromSpecImpl<u128> for Ipv6Addr {
    open spec fn obeys_from_spec() -> bool {
        true
    }

    open spec fn from_spec(v: u128) -> Ipv6Addr {
        Ipv6Addr { bits: v }
    }
}


impl FromReader for Ipv4Addr {
    open spec fn be_decoding(bytes: Seq<u8>) -> Result<(Ipv4Addr, nat), Error> {
        fixed_width(bytes, 4, Ipv4Addr { bits: be_value(bytes.take(4)) as u32 })
    }

    open spec fn le_decoding(bytes: Seq<u8>) -> Result<(Ipv4Addr, nat), Error> {
        fixed_width(bytes, 4, Ipv4Addr { bits: le_value(bytes.take(4)) as u32 })
    }

    fn read_be(reader: &mut Reader<'_>) -> (res: Result<Ipv4Addr, Error>) {
        let ghost before = unread(*reader);
        match reader.read_u32be() {
            Ok(v) => {
                proof {
                    lemma_be_bound(before.take(4));
                    lemma_pow256_values();
                }
                Ok(Ipv4Addr::from_bits(v))
            },
            Err(e) => Err(e),
        }
    }

    fn read_le(reader: &mut Reader<'_>) -> (res: Result<Ipv4Addr, Error>) {
        let ghost before = unread(*reader);
        match reader.read_u32le() {
            Ok(v) => {
                proof {
                    lemma_le_bound(before.take(4));
                    lemma_pow256_values();
                }
                Ok(Ipv4Addr::from_bits(v))
            },
            Err(e) => Err(e),
        }
    }
}

impl FromReader for Ipv6Addr {
    open spec fn be_decoding(bytes: Seq<u8>) -> Result<(Ipv6Addr, nat), Error> {
        fixed_width(bytes, 16, Ipv6Addr { bits: be_value(bytes.take(16)) as u128 })
    }

    open spec fn le_decoding(bytes: Seq<u8>) -> Result<(Ipv6Addr, nat), Error> {
        fixed_width(bytes, 16, Ipv6Addr { bits: le_value(bytes.take(16)) as u128 })
    }

    fn read_be(reader: &mut Reader<'_>) -> (res: Result<Ipv6Addr, Error>) {
        let ghost before = unread(*reader);
        match reader.read_u128be() {
            Ok(v) => {
                proof {
                    lemma_be_bound(before.take(16));
                    lemma_pow256_values();
                }
                Ok(Ipv6Addr::from_bits(v))
            },
            Err(e) => Err(e),
        }
    }

    fn read_le(reader: &mut Reader<'_>) -> (res: Result<Ipv6Addr, Error>) {
        let ghost before = unread(*reader);
        match reader.read_u128le() {
            Ok(v) => {
                proof {
                    lemma_le_bound(before.take(16));
                    lemma_pow256_values();
                }
                Ok(Ipv6Addr::from_bits(v))
            },
            Err(e) => Err(e),
        }
    }
}

} // verus!
