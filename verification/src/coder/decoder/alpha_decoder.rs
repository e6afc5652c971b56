//! The decoder that reads every logical byte whole from an alpha channel.

use vstd::prelude::*;
use crate::config::Algorithm;
use crate::coder::decoder::decode::Decode;
use crate::coder::layout::extract;

verus! {

pub struct AlphaDecoder<'a> {
    buffer: &'a [u8],
    index: usize,
}

impl<'a> AlphaDecoder<'a> {
    /// A decoder at the start of `buffer`.
    pub fn new(buffer: &'a [u8]) -> (decoder: Self)
        ensures
            decoder.wf(),
            decoder.remaining() == extract(Algorithm::Alpha, buffer@),
    {
        let decoder = Self { buffer, index: 0 };
        proof {
            assert(extract(Algorithm::Alpha, buffer@).skip(0) =~= extract(
                Algorithm::Alpha,
                buffer@,
            ));
        }
        decoder
    }
}

impl<'a> Decode for AlphaDecoder<'a> {
    closed spec fn wf(&self) -> bool {
        self.index <= self.buffer@.len() / 4
    }

    closed spec fn remaining(&self) -> Seq<u8> {
        extract(Algorithm::Alpha, self.buffer@).skip(self.index as int)
    }

    fn bytes_to_decode(&self) -> usize {
        self.buffer.len() / 4 - self.index
    }

    fn decode_byte(&mut self) -> Option<u8> {
        if self.index >= self.buffer.len() / 4 {
            return None;
        }
        let byte = self.buffer[4 * self.index + 3];
        self.index = self.index + 1;
        proof {
            let stream = extract(Algorithm::Alpha, self.buffer@);
            assert(stream.skip(old(self).index as int).skip(1) =~= stream.skip(self.index as int));
        }
        Some(byte)
    }
}

} // verus!
