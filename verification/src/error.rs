//! The errors that the conversion layer reports.

use vstd::prelude::*;

verus! {

/// Why a codec adaptor gave up.
#[derive(Clone, Copy, Debug, PartialEq, Eq, Structural)]
pub enum CodecError {
    /// The value has a shape that the target grammar cannot express.
    Unrepresentable,
    /// The input is not a document of the grammar.
    Malformed,
    /// The input is not UTF-8 text.
    Encoding,
}

/// A failure of one call into this library.
#[derive(Clone, Copy, Debug, PartialEq, Eq, Structural)]
pub enum ConvertError {
    /// A format name other than `"ini"` and `"json"`.
    UnknownFormat,
    /// A codec adaptor could not write the value or read the text.
    Codec(CodecError),
    /// The bytes that an adaptor wrote are not UTF-8 text.
    Decode,
}

impl ConvertError {
    /// The words that describe this error.
    pub open spec fn spec_message(self) -> Seq<char> {
        match self {
            ConvertError::UnknownFormat => "unknown file format"@,
            ConvertError::Codec(CodecError::Unrepresentable) => "value not representable in this format"@,
            ConvertError::Codec(CodecError::Malformed) => "malformed input"@,
            ConvertError::Codec(CodecError::Encoding) => "input is not utf-8"@,
            ConvertError::Decode => "unable to decode utf-8"@,
        }
    }

    /// A short description, fit to be shown to a user.
    pub fn message(&self) -> (text: &'static str)
        ensures
            text@ == self.spec_message(),
    {
        match self {
            ConvertError::UnknownFormat => "unknown file format",
            ConvertError::Codec(CodecError::Unrepresentable) => "value not representable in this format",
            ConvertError::Codec(CodecError::Malformed) => "malformed input",
            ConvertError::Codec(CodecError::Encoding) => "input is not utf-8",
            ConvertError::Decode => "unable to decode utf-8",
        }
    }
}

} // verus!
