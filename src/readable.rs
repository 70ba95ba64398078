//! Records that read themselves from a reader, field by field.
use untrusted::Reader;
use vstd::prelude::*;

use crate::error::Error;

verus! {

/// A data structure that can be built by reading from a `Reader`, where the
/// record's own layout, not a byte order, decides the order of its fields.
///
/// Unlike `FromReader`, this trait states nothing about what `read` does, so
/// that code outside Verus can implement it; what a caller may rely on comes
/// from the primitives that the implementation calls.
pub trait Readable {
    /// Type this readable can produce.
    type Output;

    /// Parses data from `input` and produces an `Output` from the data read.
    fn read(input: &mut Reader<'_>) -> Result<Self::Output, Error>;
}

} // verus!
