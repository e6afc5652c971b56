//! What the decoders of all strategies share: the record is read field by
//! field, and the first field that the carrier ends in fails the call.

use vstd::prelude::*;
use vstd::string::StringExecFns;
use vstd::utf8::{decode_utf8, valid_utf8};
use std::string::FromUtf8Error;
use crate::coder::error::{CoderError, DecodeError, TextDecodeError};
use crate::coder::record::{be_value, parse, reports, Field};

verus! {

/// The error of `String::from_utf8`.
#[verifier::external_type_specification]
#[verifier::external_body]
pub struct ExFromUtf8Error(std::string::FromUtf8Error);

/// `String::from_utf8`: the string that the bytes spell where they are
/// UTF-8, an error where they are not.
pub assume_specification[ String::from_utf8 ](vec: Vec<u8>) -> (result: Result<
    String,
    FromUtf8Error,
>)
    ensures
        result is Ok <==> valid_utf8(vec@),
        result matches Ok(text) ==> text@ == decode_utf8(vec@),
;

/// A decoder of one strategy: the logical bytes of a carrier that have not
/// been read yet.
pub trait Decode: Sized {
    /// The invariant of the decoder.
    spec fn wf(&self) -> bool;

    /// The logical bytes that are still to be read.
    spec fn remaining(&self) -> Seq<u8>;

    /// Reads the record: the filename behind its length, then the payload
    /// behind its length. Each field is checked against the bytes that are
    /// left before any of it is read.
    fn decode(self) -> (result: Result<(String, Vec<u8>), CoderError>)
        requires
            self.wf(),
        ensures
            reports(result, parse(self.remaining())),
    {
        let mut decoder = self;
        let ghost stream = self.remaining();
        match decoder.validate_data_available(4, Field::FilenameLength.name()) {
            Err(e) => {
                return Err(CoderError::Decode(e));
            },
            Ok(()) => {},
        }
        let file_name_length = match decoder.decode_length() {
            Some(length) => length,
            None => {
                return Err(
                    CoderError::Decode(decoder.not_available(Field::FilenameLength.name())),
                );
            },
        };
        match decoder.validate_data_available(file_name_length, Field::Filename.name()) {
            Err(e) => {
                return Err(CoderError::Decode(e));
            },
            Ok(()) => {},
        }
        let file_name: Vec<u8> = match decoder.decode_data(file_name_length) {
            Some(bytes) => bytes,
            None => {
                return Err(CoderError::Decode(decoder.not_available(Field::Filename.name())));
            },
        };
        proof {
            assert(stream.skip(4).subrange(0, file_name_length as int) =~= stream.subrange(
                4,
                4 + file_name_length,
            ));
        }
        let file_name = match String::from_utf8(file_name) {
            Ok(text) => text,
            Err(error) => {
                return Err(CoderError::TextDecode(TextDecodeError(error.to_string())));
            },
        };
        proof {
            assert(stream.skip(4).skip(file_name_length as int) =~= stream.skip(
                4 + file_name_length,
            ));
        }
        match decoder.validate_data_available(4, Field::DataLength.name()) {
            Err(e) => {
                return Err(CoderError::Decode(e));
            },
            Ok(()) => {},
        }
        let data_length = match decoder.decode_length() {
            Some(length) => length,
            None => {
                return Err(CoderError::Decode(decoder.not_available(Field::DataLength.name())));
            },
        };
        proof {
            assert(stream.skip(4 + file_name_length).subrange(0, 4) =~= stream.subrange(
                4 + file_name_length,
                8 + file_name_length,
            ));
            assert(stream.skip(4 + file_name_length).skip(4) =~= stream.skip(
                8 + file_name_length,
            ));
        }
        match decoder.validate_data_available(data_length, Field::Data.name()) {
            Err(e) => {
                return Err(CoderError::Decode(e));
            },
            Ok(()) => {},
        }
        let data = match decoder.decode_data(data_length) {
            Some(bytes) => bytes,
            None => {
                return Err(CoderError::Decode(decoder.not_available(Field::Data.name())));
            },
        };
        proof {
            assert(stream.skip(8 + file_name_length).subrange(0, data_length as int)
                =~= stream.subrange(
                8 + file_name_length,
                8 + file_name_length + data_length,
            ));
        }
        Ok((file_name, data))
    }

    /// Reads a length: four bytes, most significant first. Where fewer are
    /// left, they are consumed and the call fails.
    fn decode_length(&mut self) -> (length: Option<usize>)
        requires
            old(self).wf(),
        ensures
            final(self).wf(),
            match length {
                Some(n) => {
                    &&& old(self).remaining().len() >= 4
                    &&& n == be_value(old(self).remaining().subrange(0, 4))
                    &&& final(self).remaining() == old(self).remaining().skip(4)
                },
                None => old(self).remaining().len() < 4 && final(self).remaining().len() == 0,
            },
    {
        let ghost stream = self.remaining();
        let first = match self.decode_byte() {
            Some(byte) => byte,
            None => {
                return None;
            },
        };
        let second = match self.decode_byte() {
            Some(byte) => byte,
            None => {
                return None;
            },
        };
        let third = match self.decode_byte() {
            Some(byte) => byte,
            None => {
                return None;
            },
        };
        let fourth = match self.decode_byte() {
            Some(byte) => byte,
            None => {
                return None;
            },
        };
        proof {
            reveal(be_value);
            assert(stream.skip(1).skip(1).skip(1).skip(1) =~= stream.skip(4));
        }
        let value: u32 = (first as u32) * 0x100_0000 + (second as u32) * 0x1_0000 + (third as u32)
            * 0x100 + (fourth as u32);
        Some(value as usize)
    }

    /// Reads `length` bytes. Where fewer are left, they are consumed and the
    /// call fails.
    fn decode_data(&mut self, length: usize) -> (data: Option<Vec<u8>>)
        requires
            old(self).wf(),
        ensures
            final(self).wf(),
            match data {
                Some(bytes) => {
                    &&& old(self).remaining().len() >= length
                    &&& bytes@ == old(self).remaining().subrange(0, length as int)
                    &&& final(self).remaining() == old(self).remaining().skip(length as int)
                },
                None => old(self).remaining().len() < length && final(self).remaining().len()
                    == 0,
            },
    {
        let ghost stream = self.remaining();
        let mut data: Vec<u8> = Vec::new();
        let mut i: usize = 0;
        proof {
            assert(stream.skip(0) =~= stream);
        }
        while i < length
            invariant
                0 <= i <= length,
                i <= stream.len(),
                self.wf(),
                stream == old(self).remaining(),
                data@ == stream.subrange(0, i as int),
                self.remaining() == stream.skip(i as int),
            decreases length - i,
        {
            match self.decode_byte() {
                Some(byte) => {
                    data.push(byte);
                },
                None => {
                    return None;
                },
            }
            proof {
                assert(stream.skip(i as int).skip(1) =~= stream.skip(i + 1));
                assert(data@ =~= stream.subrange(0, i + 1));
            }
            i += 1;
        }
        Some(data)
    }

    /// Reads the next logical byte, or `None` where the carrier has no more:
    /// then nothing is consumed.
    fn decode_byte(&mut self) -> (byte: Option<u8>)
        requires
            old(self).wf(),
        ensures
            final(self).wf(),
            match byte {
                Some(value) => {
                    &&& old(self).remaining().len() > 0
                    &&& value == old(self).remaining()[0]
                    &&& final(self).remaining() == old(self).remaining().skip(1)
                },
                None => old(self).remaining().len() == 0 && final(self).remaining() == old(
                    self,
                ).remaining(),
            },
    ;

    /// Whether `length` logical bytes are left to read; if not, the error names
    /// `data_to_check`.
    fn validate_data_available(&self, length: usize, data_to_check: &str) -> (result: Result<
        (),
        DecodeError,
    >)
        requires
            self.wf(),
        ensures
            match result {
                Ok(_) => self.remaining().len() >= length,
                Err(e) => self.remaining().len() < length && e.0@ == "Not enough data to decode "@
                    + data_to_check@,
            },
    {
        if self.bytes_to_decode() >= length {
            Ok(())
        } else {
            Err(self.not_available(data_to_check))
        }
    }

    /// The number of logical bytes that are left to read.
    fn bytes_to_decode(&self) -> (left: usize)
        requires
            self.wf(),
        ensures
            left == self.remaining().len(),
    ;

    /// The error for a field that the carrier ends in.
    fn not_available(&self, data_to_check: &str) -> (error: DecodeError)
        ensures
            error.0@ == "Not enough data to decode "@ + data_to_check@,
    {
        DecodeError(String::from_str("Not enough data to decode ").concat(data_to_check))
    }
}

} // verus!
