//! Decoding: the entry point and the decoders of the two strategies.

pub mod alpha_decoder;
pub mod decode;
pub mod header_decoder;
pub mod rgb_decoder;

use vstd::prelude::*;
use crate::config::{is_supported_bits, Algorithm};
use crate::coder::decoder::alpha_decoder::AlphaDecoder;
use crate::coder::decoder::decode::Decode;
use crate::coder::decoder::header_decoder::parse_header;
use crate::coder::decoder::rgb_decoder::RgbDecoder;
use crate::coder::error::{CoderError, HeaderDecodeError};
use crate::coder::header::{header_len, AlgHeader, Header};
use crate::coder::layout::extract;
use crate::coder::record::{parse, reports, Outcome};

verus! {

/// The strategy that the header of an image announces, or the message of
/// what is wrong with the header: what reading it fails on, or a width that
/// does not divide a byte.
pub open spec fn announced(image: Seq<u8>) -> Result<Algorithm, Seq<char>> {
    match parse_header(image) {
        Err(message) => Err(message),
        Ok(header) => if header.algorithm().supported() {
            Ok(header.algorithm())
        } else {
            Err("Unsupported bits per channel in header."@)
        },
    }
}

/// The logical bytes behind the header of an image, by the given strategy.
pub open spec fn record_stream(algorithm: Algorithm, image: Seq<u8>) -> Seq<u8> {
    extract(algorithm, image.subrange(header_len(algorithm) as int, image.len() as int))
}

/// What decoding an image comes to: the message of a header that cannot be
/// used, or what reading the record behind the header comes to.
pub open spec fn decoded_image(image: Seq<u8>) -> Result<Outcome, Seq<char>> {
    match announced(image) {
        Err(message) => Err(message),
        Ok(algorithm) => Ok(parse(record_stream(algorithm, image))),
    }
}

/// The decoder of either strategy.
pub enum Decoder<'a> {
    Alpha(AlphaDecoder<'a>),
    Rgb(RgbDecoder<'a>),
}

impl<'a> Decoder<'a> {
    pub open spec fn wf(&self) -> bool {
        match self {
            Decoder::Alpha(decoder) => decoder.wf(),
            Decoder::Rgb(decoder) => decoder.wf(),
        }
    }

    pub open spec fn remaining(&self) -> Seq<u8> {
        match self {
            Decoder::Alpha(decoder) => decoder.remaining(),
            Decoder::Rgb(decoder) => decoder.remaining(),
        }
    }

    /// Reads the record.
    pub fn decode(self) -> (result: Result<(String, Vec<u8>), CoderError>)
        requires
            self.wf(),
        ensures
            reports(result, parse(self.remaining())),
    {
        match self {
            Decoder::Alpha(decoder) => decoder.decode(),
            Decoder::Rgb(decoder) => decoder.decode(),
        }
    }
}

/// Recovers the filename and the payload that are hidden in `image_buffer`.
///
/// Reads the header from the alpha channels of the first pixels and the
/// record from the channels behind them, by the strategy that the header
/// announces.
pub fn decode(image_buffer: Vec<u8>) -> (result: Result<(String, Vec<u8>), CoderError>)
    ensures
        match decoded_image(image_buffer@) {
            Err(message) => result matches Err(CoderError::HeaderDecode(e)) && e.0@ == message,
            Ok(outcome) => reports(result, outcome),
        },
{
    let mut image_buffer = image_buffer;
    let header = match header_decoder::decode(&image_buffer) {
        Ok(header) => header,
        Err(e) => {
            return Err(CoderError::HeaderDecode(e));
        },
    };
    if !supports(&header) {
        return Err(
            CoderError::HeaderDecode(
                HeaderDecodeError("Unsupported bits per channel in header.".to_owned()),
            ),
        );
    }
    let buffer = image_buffer.split_off(header.size() * 4);
    let decoder = create_decoder(&header, buffer.as_slice());
    decoder.decode()
}

/// Whether the strategy of the header can be decoded.
fn supports(header: &Header) -> (supported: bool)
    ensures
        supported == header.algorithm().supported(),
{
    match &header.alg_header {
        AlgHeader::Alpha(_) => true,
        AlgHeader::Rgb(rgb_header) => is_supported_bits(rgb_header.bits_per_channel),
    }
}

/// The decoder of the header's strategy at the start of `buffer`.
fn create_decoder<'a>(header: &Header, buffer: &'a [u8]) -> (decoder: Decoder<'a>)
    requires
        header.algorithm().supported(),
    ensures
        decoder.wf(),
        decoder.remaining() == extract(header.algorithm(), buffer@),
{
    match &header.alg_header {
        AlgHeader::Alpha(_) => Decoder::Alpha(AlphaDecoder::new(buffer)),
        AlgHeader::Rgb(rgb_header) => Decoder::Rgb(
            RgbDecoder::new(buffer, rgb_header.bits_per_channel),
        ),
    }
}

} // verus!
