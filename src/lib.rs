//! Decoding primitives for fixed-width integers, byte runs, text and network
//! addresses, read from an `untrusted::Reader`.
pub mod addr;
pub mod cursor;
pub mod encoding;
pub mod error;
pub mod from_reader;
pub mod laws;
pub mod readable;
pub mod reader_ext;
pub mod text;

pub use crate::addr::{Ipv4Addr, Ipv6Addr};
pub use crate::error::Error;
pub use crate::from_reader::FromReader;
pub use crate::readable::Readable;
pub use crate::reader_ext::ReaderExt;
