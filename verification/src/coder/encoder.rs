//! Encoding: the entry point and the encoders of the two strategies.

pub mod alpha_encoder;
pub mod encode;
pub mod header_encoder;
pub mod rgb_encoder;

use vstd::prelude::*;
use crate::config::Algorithm;
use crate::coder::encoder::alpha_encoder::AlphaEncoder;
use crate::coder::encoder::encode::{Encode, EncodeState};
use crate::coder::encoder::header_encoder::header_bytes;
use crate::coder::encoder::rgb_encoder::RgbEncoder;
use crate::coder::error::{CoderError, EncodeError};
use crate::coder::header::{header_for, header_len, Header};
use crate::coder::layout::{capacity, embed};
use crate::coder::record::{record_bytes, record_len};

verus! {

/// Whether the record fits behind the header in an image of `image_len`
/// channels.
pub open spec fn record_fits(
    algorithm: Algorithm,
    image_len: nat,
    file_name: Seq<char>,
    payload: Seq<u8>,
) -> bool {
    record_len(file_name, payload) <= capacity(
        algorithm,
        (image_len - header_len(algorithm)) as nat,
    )
}

/// The image with the header in its first pixels and the record in the
/// channels behind them.
pub open spec fn encoded_image(
    algorithm: Algorithm,
    image: Seq<u8>,
    file_name: Seq<char>,
    payload: Seq<u8>,
) -> Seq<u8> {
    let split = header_len(algorithm) as int;
    embed(Algorithm::Alpha, image.subrange(0, split), header_bytes(header_for(algorithm))) + embed(
        algorithm,
        image.subrange(split, image.len() as int),
        record_bytes(file_name, payload),
    )
}

/// The encoder of either strategy.
pub enum Encoder {
    Alpha(AlphaEncoder),
    Rgb(RgbEncoder),
}

impl Encoder {
    pub open spec fn wf(&self) -> bool {
        match self {
            Encoder::Alpha(encoder) => encoder.wf(),
            Encoder::Rgb(encoder) => encoder.wf(),
        }
    }

    pub open spec fn state(&self) -> EncodeState {
        match self {
            Encoder::Alpha(encoder) => encoder.state(),
            Encoder::Rgb(encoder) => encoder.state(),
        }
    }

    /// Writes the record, or nothing where it does not fit.
    pub fn encode(self) -> (result: Result<Vec<u8>, EncodeError>)
        requires
            self.wf(),
        ensures
            match result {
                Ok(buffer) => self.state().fits() && buffer@ == self.state().encoded(),
                Err(e) => !self.state().fits() && e.0@ == "Too much data to encode in the image."@,
            },
    {
        match self {
            Encoder::Alpha(encoder) => encoder.encode(),
            Encoder::Rgb(encoder) => encoder.encode(),
        }
    }
}

/// Hides `secret_data` under the name `secret_filename` in `image_buffer`.
///
/// The header goes into the alpha channels of the first pixels, the record
/// into the channels behind them, by the strategy that `algorithm` names.
/// Fails, in this order, where the strategy has a width that does not divide
/// a byte, where the image is too short for the header, and where the record
/// does not fit behind it.
pub fn encode(
    algorithm: &Algorithm,
    image_buffer: Vec<u8>,
    secret_data: Vec<u8>,
    secret_filename: String,
) -> (result: Result<Vec<u8>, CoderError>)
    ensures
        !algorithm.supported() ==> (result matches Err(CoderError::Encode(e)) && e.0@
            == "Unsupported bits per channel."@),
        algorithm.supported() && image_buffer@.len() < header_len(*algorithm) ==> (
        result matches Err(CoderError::HeaderEncode(e)) && e.0@
            == header_encoder::short_carrier_message(image_buffer@.len())),
        algorithm.supported() && image_buffer@.len() >= header_len(*algorithm) && !record_fits(
            *algorithm,
            image_buffer@.len(),
            secret_filename@,
            secret_data@,
        ) ==> (result matches Err(CoderError::Encode(e)) && e.0@
            == "Too much data to encode in the image."@),
        algorithm.supported() && image_buffer@.len() >= header_len(*algorithm) && record_fits(
            *algorithm,
            image_buffer@.len(),
            secret_filename@,
            secret_data@,
        ) ==> (result matches Ok(encoded) && encoded@ == encoded_image(
            *algorithm,
            image_buffer@,
            secret_filename@,
            secret_data@,
        )),
{
    if !algorithm.is_supported() {
        return Err(CoderError::Encode(EncodeError("Unsupported bits per channel.".to_owned())));
    }
    let mut image_buffer = image_buffer;
    let ghost image = image_buffer@;
    let header: Header = create_header(algorithm);
    match header_encoder::encode(header, &mut image_buffer) {
        Err(e) => {
            return Err(CoderError::HeaderEncode(e));
        },
        Ok(()) => {},
    }
    let data_buffer = image_buffer.split_off(header.size() * 4);
    proof {
        let split = header_len(*algorithm) as int;
        assert(data_buffer@ =~= image.subrange(split, image.len() as int));
        assert(image_buffer@ =~= embed(
            Algorithm::Alpha,
            image.subrange(0, split),
            header_bytes(header),
        ));
    }
    match create_encoder(algorithm, data_buffer, secret_data, secret_filename).encode() {
        Err(e) => Err(CoderError::Encode(e)),
        Ok(encoded) => {
            let mut encoded = encoded;
            image_buffer.append(&mut encoded);
            Ok(image_buffer)
        },
    }
}

/// The header that announces `algorithm`.
fn create_header(algorithm: &Algorithm) -> (header: Header)
    ensures
        header == header_for(*algorithm),
{
    match algorithm {
        Algorithm::Alpha => Header::new_alpha(),
        Algorithm::Rgb(alg_config) => Header::new_rgb(alg_config.bits_per_channel),
    }
}

/// The encoder of `algorithm` at the start of `buffer`.
fn create_encoder(
    algorithm: &Algorithm,
    buffer: Vec<u8>,
    secret_data: Vec<u8>,
    secret_filename: String,
) -> (encoder: Encoder)
    requires
        algorithm.supported(),
    ensures
        encoder.wf(),
        encoder.state() == (EncodeState {
            algorithm: *algorithm,
            carrier: buffer@,
            cursor: 0,
            file_name: secret_filename@,
            payload: secret_data@,
        }),
{
    match algorithm {
        Algorithm::Rgb(alg_config) => Encoder::Rgb(
            RgbEncoder::new(buffer, secret_data, alg_config.bits_per_channel, secret_filename),
        ),
        Algorithm::Alpha => Encoder::Alpha(AlphaEncoder::new(buffer, secret_data, secret_filename)),
    }
}

} // verus!
