//! The decoder that gathers every logical byte from the low bits of
//! successive channels.

use vstd::prelude::*;
use crate::config::supported_bits;
use crate::coder::decoder::decode::Decode;
use crate::coder::layout::{assemble, extract, fragments, lemma_capacity, lemma_fragments, rgb};
use crate::coder::util::{create_mask, mask_value, BITS_IN_BYTE};

verus! {

pub struct RgbDecoder<'a> {
    buffer: &'a [u8],
    index: usize,
    bits_per_channel: u8,
    mask: u8,
}

impl<'a> RgbDecoder<'a> {
    /// A decoder at the start of `buffer` that reads the `bits_per_channel`
    /// low bits of every channel.
    pub fn new(buffer: &'a [u8], bits_per_channel: u8) -> (decoder: Self)
        requires
            supported_bits(bits_per_channel),
        ensures
            decoder.wf(),
            decoder.remaining() == extract(rgb(bits_per_channel), buffer@),
    {
        let decoder = RgbDecoder {
            buffer,
            index: 0,
            bits_per_channel,
            mask: create_mask(bits_per_channel),
        };
        proof {
            lemma_fragments(bits_per_channel);
            assert(0int % 8 == 0 && 0int % 4 == 0 && 0int % 2 == 0 && 0int % 1 == 0);
            assert(0int / 8 == 0 && 0int / 4 == 0 && 0int / 2 == 0 && 0int / 1 == 0);
            assert(extract(rgb(bits_per_channel), buffer@).skip(0) =~= extract(
                rgb(bits_per_channel),
                buffer@,
            ));
        }
        decoder
    }
}

impl<'a> Decode for RgbDecoder<'a> {
    closed spec fn wf(&self) -> bool {
        &&& supported_bits(self.bits_per_channel)
        &&& self.mask == mask_value(self.bits_per_channel)
        &&& self.index <= self.buffer@.len()
        &&& self.index as int % fragments(self.bits_per_channel) == 0
    }

    closed spec fn remaining(&self) -> Seq<u8> {
        extract(rgb(self.bits_per_channel), self.buffer@).skip(
            self.index as int / fragments(self.bits_per_channel),
        )
    }

    fn bytes_to_decode(&self) -> usize {
        proof {
            lemma_fragments(self.bits_per_channel);
            lemma_capacity(rgb(self.bits_per_channel), self.buffer@.len());
        }
        let per_byte = (BITS_IN_BYTE / self.bits_per_channel) as usize;
        self.buffer.len() / per_byte - self.index / per_byte
    }

    fn decode_byte(&mut self) -> Option<u8> {
        let bits = self.bits_per_channel;
        let ghost base = self.index as int;
        let ghost n = fragments(bits);
        let ghost stream = extract(rgb(bits), self.buffer@);
        proof {
            lemma_fragments(bits);
            lemma_capacity(rgb(bits), self.buffer@.len());
            let len = self.buffer@.len() as int;
            if bits == 1 {
                assert(base / 8 * 8 == base && (base + 8) % 8 == 0 && (base + 8) / 8 == base / 8
                    + 1);
                assert(len - base < 8 <==> base / 8 >= len / 8);
            } else if bits == 2 {
                assert(base / 4 * 4 == base && (base + 4) % 4 == 0 && (base + 4) / 4 == base / 4
                    + 1);
                assert(len - base < 4 <==> base / 4 >= len / 4);
            } else if bits == 4 {
                assert(base / 2 * 2 == base && (base + 2) % 2 == 0 && (base + 2) / 2 == base / 2
                    + 1);
                assert(len - base < 2 <==> base / 2 >= len / 2);
            } else {
                assert(base / 1 * 1 == base && (base + 1) % 1 == 0 && (base + 1) / 1 == base / 1
                    + 1);
                assert(len / 1 == len);
                assert(len - base < 1 <==> base / 1 >= len / 1);
            }
            assert(len - base < n <==> base / n >= stream.len());
            assert(base / n * n == base);
            assert((base + n) % n == 0 && (base + n) / n == base / n + 1);
        }
        if self.buffer.len() - self.index < (BITS_IN_BYTE / bits) as usize {
            return None;
        }
        let mut byte: u8 = 0;
        let mut left = BITS_IN_BYTE;
        let ghost mut j: int = 0;
        while left > 0
            invariant
                supported_bits(bits),
                n == fragments(bits),
                bits * n == 8,
                0 <= j <= n,
                left == 8 - bits * j,
                self.bits_per_channel == bits,
                self.mask == mask_value(bits),
                self.buffer == old(self).buffer,
                self.index == base + j,
                base + n <= self.buffer@.len(),
                byte == assemble(self.buffer@, base, bits, j),
            decreases left,
        {
            proof {
                assert(j < n && left >= bits) by (nonlinear_arith)
                    requires
                        left > 0,
                        left == 8 - bits * j,
                        bits * n == 8,
                        bits >= 1,
                        0 <= j <= n,
                ;
            }
            let channel = self.buffer[self.index];
            self.index = self.index + 1;
            let low = channel & self.mask;
            byte = match byte.checked_shl(bits as u32) {
                Some(shifted) => shifted,
                None => 0,
            };
            byte |= low;
            proof {
                assert(8 - bits * (j + 1) == left - bits) by (nonlinear_arith)
                    requires
                        left == 8 - bits * j,
                ;
                j = j + 1;
            }
            left -= bits;
        }
        proof {
            assert(j == n) by (nonlinear_arith)
                requires
                    left == 0,
                    left == 8 - bits * j,
                    bits * n == 8,
                    bits >= 1,
                    0 <= j <= n,
            ;
            assert(stream.skip(base / n).skip(1) =~= stream.skip(base / n + 1));
        }
        Some(byte)
    }
}

} // verus!
