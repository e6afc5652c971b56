//! Reads the header from the alpha channels of the first pixels.

use vstd::prelude::*;
use crate::config::Algorithm;
use crate::coder::error::HeaderDecodeError;
use crate::coder::header::{AlgHeader, AlphaHeader, Header, RgbHeader, ALPHA_MODE, RGB_MODE};
use crate::coder::layout::extract;

verus! {

/// The header at the start of an image, or the message of what is wrong
/// with it: the image ends before the mode, the mode has a parameter and the
/// image ends before that, or the mode is not known.
pub open spec fn parse_header(image: Seq<u8>) -> Result<Header, Seq<char>> {
    let fields = extract(Algorithm::Alpha, image);
    if fields.len() < 1 {
        Err("Header decode error: Not enough data to decode mode."@)
    } else if fields[0] == ALPHA_MODE {
        Ok(Header { mode: ALPHA_MODE, alg_header: AlgHeader::Alpha(AlphaHeader {  }) })
    } else if fields[0] == RGB_MODE {
        if fields.len() < 2 {
            Err("Header decode error: Not enough data to decode bits per channel."@)
        } else {
            Ok(
                Header {
                    mode: RGB_MODE,
                    alg_header: AlgHeader::Rgb(RgbHeader { bits_per_channel: fields[1] }),
                },
            )
        }
    } else {
        Err("Unknown mode in header."@)
    }
}

/// Reads the header of `buffer`.
pub fn decode(buffer: &Vec<u8>) -> (result: Result<Header, HeaderDecodeError>)
    ensures
        match result {
            Ok(header) => parse_header(buffer@) == Ok::<Header, Seq<char>>(header),
            Err(e) => parse_header(buffer@) == Err::<Header, Seq<char>>(e.0@),
        },
{
    if buffer.len() < 4 {
        return Err(
            HeaderDecodeError("Header decode error: Not enough data to decode mode.".to_owned()),
        );
    }
    let mode = buffer[3];
    match decode_alg_header(mode, buffer) {
        Ok(alg_header) => Ok(Header::new(mode, alg_header)),
        Err(e) => Err(e),
    }
}

/// Reads what follows the mode.
fn decode_alg_header(mode: u8, buffer: &Vec<u8>) -> (result: Result<AlgHeader, HeaderDecodeError>)
    requires
        buffer@.len() >= 4,
        mode == buffer@[3],
    ensures
        match result {
            Ok(alg_header) => parse_header(buffer@) == Ok::<Header, Seq<char>>(
                Header { mode, alg_header },
            ),
            Err(e) => parse_header(buffer@) == Err::<Header, Seq<char>>(e.0@),
        },
{
    if mode == ALPHA_MODE {
        Ok(AlgHeader::Alpha(decode_alpha()))
    } else if mode == RGB_MODE {
        match decode_rgb(buffer) {
            Ok(alg_header) => Ok(AlgHeader::Rgb(alg_header)),
            Err(e) => Err(e),
        }
    } else {
        Err(HeaderDecodeError("Unknown mode in header.".to_owned()))
    }
}

/// The alpha strategy has no parameter.
fn decode_alpha() -> (alg_header: AlphaHeader)
    ensures
        alg_header == (AlphaHeader {  }),
{
    AlphaHeader {  }
}

/// Reads the width from the alpha channel of the second pixel.
fn decode_rgb(buffer: &Vec<u8>) -> (result: Result<RgbHeader, HeaderDecodeError>)
    ensures
        match result {
            Ok(alg_header) => buffer@.len() >= 8 && alg_header.bits_per_channel == buffer@[7],
            Err(e) => buffer@.len() < 8 && e.0@
                == "Header decode error: Not enough data to decode bits per channel."@,
        },
{
    if buffer.len() < 8 {
        return Err(
            HeaderDecodeError(
                "Header decode error: Not enough data to decode bits per channel.".to_owned(),
            ),
        );
    }
    Ok(RgbHeader { bits_per_channel: buffer[7] })
}

} // verus!
