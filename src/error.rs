//! The closed set of failures that decoding reports.
use std::str::Utf8Error;
use std::string::FromUtf16Error;
use untrusted::EndOfInput;
use vstd::prelude::*;

verus! {

/// Possible errors raised by the decoding primitives.
#[derive(Clone, Copy, Debug, PartialEq, Eq, Structural)]
pub enum Error {
    /// The end of the input was reached before the operation could be
    /// completed.
    EndOfInput,
    /// The bytes were there but do not form a value of the requested type.
    ParseError,
    /// The data parsed was syntactically correct, but the value is invalid in
    /// this context.
    InvalidValue,
    /// Unknown error occurred.
    UnknownError,
}

impl Error {
    /// A sentence that describes the error.
    pub fn message(&self) -> (r: &'static str)
        ensures
            *self == Error::EndOfInput ==> r@ == "end of input was reached unexpectedly"@,
            *self == Error::ParseError ==> r@ == "failed to parse data into a more specific type"@,
            *self == Error::InvalidValue ==> r@ == "parsed data contained invalid value"@,
            *self == Error::UnknownError ==> r@ == "reading failed with an unknown error"@,
    {
        match self {
            Error::EndOfInput => "end of input was reached unexpectedly",
            Error::ParseError => "failed to parse data into a more specific type",
            Error::InvalidValue => "parsed data contained invalid value",
            Error::UnknownError => "reading failed with an unknown error",
        }
    }
}

impl From<EndOfInput> for Error {
    fn from(_e: EndOfInput) -> (r: Error)
        ensures
            r == Error::EndOfInput,
    {
        Error::EndOfInput
    }
}

impl vstd::std_specs::convert::FromSpecImpl<EndOfInput> for Error {
    open spec fn obeys_from_spec() -> bool {
        true
    }

    open spec fn from_spec(v: EndOfInput) -> Error {
        Error::EndOfInput
    }
}

impl From<Utf8Error> for Error {
    fn from(_e: Utf8Error) -> (r: Error)
        ensures
            r == Error::ParseError,
    {
        Error::ParseError
    }
}

impl vstd::std_specs::convert::FromSpecImpl<Utf8Error> for Error {
    open spec fn obeys_from_spec() -> bool {
        true
    }

    open spec fn from_spec(v: Utf8Error) -> Error {
        Error::ParseError
    }
}

impl From<FromUtf16Error> for Error {
    fn from(_e: FromUtf16Error) -> (r: Error)
        ensures
            r == Error::ParseError,
    {
        Error::ParseError
    }
}

impl vstd::std_specs::convert::FromSpecImpl<FromUtf16Error> for Error {
    open spec fn obeys_from_spec() -> bool {
        true
    }

    open spec fn from_spec(v: FromUtf16Error) -> Error {
        Error::ParseError
    }
}

} // verus!
