use vstd::prelude::*;

verus! {

/// The kind of failure that stopped a parse.
#[derive(Debug, Clone, Copy, PartialEq, Eq, Structural)]
pub enum ErrorType {
    /// A generic grammar violation.
    Syntax,
    /// The structural index ran out before the grammar was satisfied.
    UnexpectedEnd,
    /// A signed integer literal was requested and something else was found.
    ExpectedSigned,
    /// An unsigned integer literal was requested and something else was found.
    ExpectedUnsigned,
    /// A numeric literal was requested and something else was found.
    ExpectedFloat,
    /// A backslash was followed by a character outside the escape table.
    InvalidEscape,
    /// A `\u` escape did not denote a Unicode scalar value.
    InvalidUnicodeCodepoint,
    /// An integer literal does not fit in an `i64`.
    IntegerTooLarge,
    /// String content was not valid UTF-8.
    InvalidUtf8,
    /// The input is too large to be indexed with 32-bit offsets.
    InputTooLarge,
}

/// A parse error: its kind and the byte offset at which it was detected.
#[derive(Debug, Clone, Copy, PartialEq, Eq, Structural)]
pub struct Error {
    pub index: usize,
    pub error: ErrorType,
}

impl Error {
    pub fn new(index: usize, error: ErrorType) -> (r: Error)
        ensures
            r.index == index,
            r.error == error,
    {
        Error { index, error }
    }
}

/// Error while converting between a value tree and the generic JSON value.
#[derive(Debug, Clone, Copy, PartialEq, Eq, Structural)]
pub enum SerdeConversionError {
    /// JSON can represent neither NaN nor an infinity.
    NanOrInfinity,
    /// An integer does not fit in an `i64`.
    IntegerTooLarge,
    /// An internal invariant was broken.
    Oops,
}

impl SerdeConversionError {
    /// A sentence that describes the error.
    pub fn message(&self) -> (r: &'static str)
        ensures
            *self is NanOrInfinity ==> r@ == "JSON can not represent NAN or Infinity values"@,
            *self is IntegerTooLarge ==> r@ == "Integer value is too large to fit in a i64"@,
            *self is Oops ==> r@ == "Unreachable code is reachable, oops - please open a bug with simdjson-rs"@,
    {
        match self {
            SerdeConversionError::NanOrInfinity => "JSON can not represent NAN or Infinity values",
            SerdeConversionError::IntegerTooLarge => "Integer value is too large to fit in a i64",
            SerdeConversionError::Oops => "Unreachable code is reachable, oops - please open a bug with simdjson-rs",
        }
    }
}

} // verus!
