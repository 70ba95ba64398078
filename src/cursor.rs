//! The cursor substrate: `untrusted`'s `Reader` and `Input`, as Verus sees them.
//!
//! A reader is modelled by the bytes it has not consumed yet, an input by the
//! bytes it holds. Every fact about them below is taken from `untrusted`.
use untrusted::{EndOfInput, Input, Reader};
use vstd::prelude::*;

use crate::error::Error;

verus! {

#[verifier::external_type_specification]
#[verifier::external_body]
pub struct ExReader<'a>(Reader<'a>);

#[verifier::external_type_specification]
#[verifier::external_body]
pub struct ExInput<'a>(Input<'a>);

#[verifier::external_type_specification]
#[verifier::external_body]
pub struct ExEndOfInput(EndOfInput);

/// The bytes that `r` has not consumed yet, in input order.
pub uninterp spec fn unread(r: Reader<'_>) -> Seq<u8>;

/// The bytes that `i` holds, in input order.
pub uninterp spec fn input_bytes(i: Input<'_>) -> Seq<u8>;

/// Relies on `untrusted::Reader::read_byte`: at the end of the input it fails
/// and leaves the reader as it was; otherwise it returns the next byte and
/// moves past it.
#[verifier::external_body]
pub(crate) fn take_byte(r: &mut Reader<'_>) -> (res: Result<u8, EndOfInput>)
    ensures
        unread(*old(r)).len() == 0 ==> res is Err && unread(*final(r)) == unread(*old(r)),
        unread(*old(r)).len() > 0 ==> res == Ok::<u8, EndOfInput>(unread(*old(r))[0])
            && unread(*final(r)) == unread(*old(r)).drop_first(),
{
    r.read_byte()
}

/// Relies on `untrusted::Reader::read_bytes`: with fewer than `n` bytes left it
/// fails and leaves the reader as it was; otherwise it returns the next `n`
/// bytes as an input and moves past them.
#[verifier::external_body]
pub(crate) fn take_bytes<'a>(r: &mut Reader<'a>, n: usize) -> (res: Result<Input<'a>, EndOfInput>)
    ensures
        unread(*old(r)).len() < n ==> res is Err && unread(*final(r)) == unread(*old(r)),
        unread(*old(r)).len() >= n ==> res is Ok
            && input_bytes(res->Ok_0) == unread(*old(r)).take(n as int)
            && unread(*final(r)) == unread(*old(r)).skip(n as int),
{
    r.read_bytes(n)
}

/// Relies on `untrusted::Input::as_slice_less_safe`: the slice holds the
/// input's bytes.
#[verifier::external_body]
pub(crate) fn input_as_slice<'a>(i: &Input<'a>) -> (res: &'a [u8])
    ensures
        res@ == input_bytes(*i),
{
    i.as_slice_less_safe()
}

/// The next `n` bytes of `r` as a slice of the input, or `EndOfInput` (with the
/// reader left as it was) when fewer remain.
pub(crate) fn take_slice<'a>(r: &mut Reader<'a>, n: usize) -> (res: Result<&'a [u8], Error>)
    ensures
        res is Err <==> unread(*old(r)).len() < n,
        res is Err ==> res == Err::<&[u8], Error>(Error::EndOfInput) && unread(*final(r)) == unread(
            *old(r),
        ),
        res is Ok ==> res->Ok_0@ == unread(*old(r)).take(n as int) && unread(*final(r)) == unread(
            *old(r),
        ).skip(n as int),
{
    match take_bytes(r, n) {
        Ok(input) => Ok(input_as_slice(&input)),
        Err(_) => Err(Error::EndOfInput),
    }
}

} // verus!
