//! Writes the header. Its fields go into the alpha channels of the first
//! pixels, whatever strategy the record behind it uses.

use vstd::prelude::*;
use crate::config::Algorithm;
use crate::coder::error::HeaderEncodeError;
use crate::coder::header::{AlgHeader, Header, RgbHeader};
use crate::coder::layout::embed;

verus! {

/// The fields of the header as logical bytes.
pub open spec fn header_bytes(header: Header) -> Seq<u8> {
    match header.alg_header {
        AlgHeader::Alpha(_) => seq![header.mode],
        AlgHeader::Rgb(alg_header) => seq![header.mode, alg_header.bits_per_channel],
    }
}

/// The message of the first field that a carrier of `len` channels has no
/// place for.
pub open spec fn short_carrier_message(len: nat) -> Seq<char> {
    if len < 4 {
        "Not enough to encode header mode."@
    } else {
        "Not enough to encode header bits per channel."@
    }
}

/// Writes the header into the first pixels of `buffer`, or fails and leaves
/// `buffer` as it is where a field has no place.
pub fn encode(header: Header, buffer: &mut Vec<u8>) -> (result: Result<(), HeaderEncodeError>)
    ensures
        match result {
            Ok(_) => {
                &&& old(buffer)@.len() >= 4 * header.field_count()
                &&& final(buffer)@ == embed(Algorithm::Alpha, old(buffer)@, header_bytes(header))
            },
            Err(e) => {
                &&& old(buffer)@.len() < 4 * header.field_count()
                &&& final(buffer)@ == old(buffer)@
                &&& e.0@ == short_carrier_message(old(buffer)@.len())
            },
        },
{
    if buffer.len() < 4 {
        return Err(HeaderEncodeError("Not enough to encode header mode.".to_owned()));
    }
    let written = match header.alg_header {
        AlgHeader::Alpha(_) => encode_alpha(buffer),
        AlgHeader::Rgb(alg_header) => encode_rgb(buffer, &alg_header),
    };
    match written {
        Err(e) => Err(e),
        Ok(()) => {
            buffer.set(3, header.mode);
            proof {
                assert(buffer@ =~= embed(Algorithm::Alpha, old(buffer)@, header_bytes(header)));
            }
            Ok(())
        },
    }
}

/// The alpha strategy has no parameter: nothing is written.
fn encode_alpha(buffer: &mut Vec<u8>) -> (result: Result<(), HeaderEncodeError>)
    ensures
        result is Ok,
        final(buffer)@ == old(buffer)@,
{
    Ok(())
}

/// Writes the width into the alpha channel of the second pixel.
fn encode_rgb(buffer: &mut Vec<u8>, header: &RgbHeader) -> (result: Result<(), HeaderEncodeError>)
    ensures
        match result {
            Ok(_) => old(buffer)@.len() >= 8 && final(buffer)@ == old(buffer)@.update(
                7,
                header.bits_per_channel,
            ),
            Err(e) => {
                &&& old(buffer)@.len() < 8
                &&& final(buffer)@ == old(buffer)@
                &&& e.0@ == "Not enough to encode header bits per channel."@
            },
        },
{
    if buffer.len() < 8 {
        return Err(HeaderEncodeError("Not enough to encode header bits per channel.".to_owned()));
    }
    buffer.set(7, header.bits_per_channel);
    Ok(())
}

} // verus!
