//! The errors of the codec. Each carries its message; `to_string` prefixes
//! the message with the kind of the error.

use vstd::prelude::*;
use vstd::string::StringExecFns;

verus! {

/// The record does not fit into the carrier.
#[derive(Debug, Clone, PartialEq, Eq)]
pub struct EncodeError(pub String);

/// The carrier ends before a field of the record does.
#[derive(Debug, Clone, PartialEq, Eq)]
pub struct DecodeError(pub String);

/// The carrier is too short for the header.
#[derive(Debug, Clone, PartialEq, Eq)]
pub struct HeaderEncodeError(pub String);

/// The carrier ends inside the header, or the header names no known strategy.
#[derive(Debug, Clone, PartialEq, Eq)]
pub struct HeaderDecodeError(pub String);

/// The bytes of the filename are not UTF-8.
#[derive(Debug, Clone, PartialEq, Eq)]
pub struct TextDecodeError(pub String);

/// Any error of the codec, as the two entry points return it.
#[derive(Debug, Clone, PartialEq, Eq)]
pub enum CoderError {
    HeaderEncode(HeaderEncodeError),
    HeaderDecode(HeaderDecodeError),
    Encode(EncodeError),
    Decode(DecodeError),
    TextDecode(TextDecodeError),
}

impl EncodeError {
    pub fn to_string(&self) -> (text: String)
        ensures
            text@ == "Encode error: "@ + self.0@,
    {
        String::from_str("Encode error: ").concat(self.0.as_str())
    }
}

impl DecodeError {
    pub fn to_string(&self) -> (text: String)
        ensures
            text@ == "Decode error: "@ + self.0@,
    {
        String::from_str("Decode error: ").concat(self.0.as_str())
    }
}

impl HeaderEncodeError {
    pub fn to_string(&self) -> (text: String)
        ensures
            text@ == "Header encode error: "@ + self.0@,
    {
        String::from_str("Header encode error: ").concat(self.0.as_str())
    }
}

impl HeaderDecodeError {
    pub fn to_string(&self) -> (text: String)
        ensures
            text@ == "Header decode error: "@ + self.0@,
    {
        String::from_str("Header decode error: ").concat(self.0.as_str())
    }
}

impl TextDecodeError {
    pub fn to_string(&self) -> (text: String)
        ensures
            text@ == "Text decode error: "@ + self.0@,
    {
        String::from_str("Text decode error: ").concat(self.0.as_str())
    }
}

impl CoderError {
    /// The text of the error inside.
    pub open spec fn text(self) -> Seq<char> {
        match self {
            CoderError::HeaderEncode(e) => "Header encode error: "@ + e.0@,
            CoderError::HeaderDecode(e) => "Header decode error: "@ + e.0@,
            CoderError::Encode(e) => "Encode error: "@ + e.0@,
            CoderError::Decode(e) => "Decode error: "@ + e.0@,
            CoderError::TextDecode(e) => "Text decode error: "@ + e.0@,
        }
    }

    pub fn to_string(&self) -> (text: String)
        ensures
            text@ == self.text(),
    {
        match self {
            CoderError::HeaderEncode(e) => e.to_string(),
            CoderError::HeaderDecode(e) => e.to_string(),
            CoderError::Encode(e) => e.to_string(),
            CoderError::Decode(e) => e.to_string(),
            CoderError::TextDecode(e) => e.to_string(),
        }
    }
}

} // verus!
