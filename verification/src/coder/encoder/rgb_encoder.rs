//! The encoder that packs every logical byte into the low bits of
//! successive channels.

use vstd::prelude::*;
use vstd::slice::slice_to_vec;
use crate::config::supported_bits;
use crate::coder::encoder::encode::{Encode, EncodeState};
use crate::coder::layout::{
    fragment, fragments, lemma_capacity, lemma_fragments, lemma_rgb_slot, lemma_rgb_written, rgb,
};
use crate::coder::util::{create_mask, mask_value, BITS_IN_BYTE};

verus! {

pub struct RgbEncoder {
    buffer: Vec<u8>,
    data: Vec<u8>,
    index: usize,
    bits_per_channel: u8,
    file_name: String,
    mask: u8,
}

impl RgbEncoder {
    /// An encoder at the start of `buffer` that uses the `bits_per_channel`
    /// low bits of every channel.
    pub fn new(buffer: Vec<u8>, data: Vec<u8>, bits_per_channel: u8, file_name: String) -> (encoder:
        Self)
        requires
            supported_bits(bits_per_channel),
        ensures
            encoder.wf(),
            encoder.state() == (EncodeState {
                algorithm: rgb(bits_per_channel),
                carrier: buffer@,
                cursor: 0,
                file_name: file_name@,
                payload: data@,
            }),
    {
        proof {
            lemma_fragments(bits_per_channel);
            assert(0int % 8 == 0 && 0int % 4 == 0 && 0int % 2 == 0 && 0int % 1 == 0);
            assert(0int / 8 == 0 && 0int / 4 == 0 && 0int / 2 == 0 && 0int / 1 == 0);
        }
        RgbEncoder {
            buffer,
            data,
            index: 0,
            bits_per_channel,
            file_name,
            mask: create_mask(bits_per_channel),
        }
    }
}

impl Encode for RgbEncoder {
    closed spec fn wf(&self) -> bool {
        &&& supported_bits(self.bits_per_channel)
        &&& self.mask == mask_value(self.bits_per_channel)
        &&& self.index <= self.buffer@.len()
        &&& self.index as int % fragments(self.bits_per_channel) == 0
    }

    closed spec fn state(&self) -> EncodeState {
        EncodeState {
            algorithm: rgb(self.bits_per_channel),
            carrier: self.buffer@,
            cursor: (self.index as int / fragments(self.bits_per_channel)) as nat,
            file_name: self.file_name@,
            payload: self.data@,
        }
    }

    fn encode_byte(&mut self, byte: u8) {
        let mask = self.mask;
        let bits = self.bits_per_channel;
        let ghost base = self.index as int;
        let ghost n = fragments(bits);
        let ghost mut j: int = 0;
        proof {
            lemma_fragments(bits);
            lemma_rgb_slot(bits, self.buffer@.len(), base);
        }
        let len = self.buffer.len();
        let mut shift: i32 = (BITS_IN_BYTE - bits) as i32;
        while shift >= 0
            invariant
                supported_bits(bits),
                n == fragments(bits),
                bits * n == 8,
                0 <= j <= n,
                shift == 8 - bits * (j + 1),
                mask == mask_value(bits),
                self.mask == mask,
                self.bits_per_channel == bits,
                self.file_name == old(self).file_name,
                self.data == old(self).data,
                self.index == base + j,
                base == old(self).index,
                base + n <= self.buffer@.len(),
                self.buffer@.len() == len,
                self.buffer@.len() == old(self).buffer@.len(),
                forall|p: int|
                    0 <= p < self.buffer@.len() ==> #[trigger] self.buffer@[p] == if base <= p
                        < base + j {
                        (old(self).buffer@[p] & !mask) | fragment(byte, bits, p - base)
                    } else {
                        old(self).buffer@[p]
                    },
            decreases shift + 8,
        {
            proof {
                assert(j < n && shift < 8) by (nonlinear_arith)
                    requires
                        shift >= 0,
                        shift == 8 - bits * (j + 1),
                        bits * n == 8,
                        bits >= 1,
                        j >= 0,
                ;
            }
            let low = (byte >> (shift as u8)) & mask;
            let channel = self.buffer[self.index];
            self.buffer.set(self.index, (channel & !mask) | low);
            self.index = self.index + 1;
            proof {
                assert(8 - bits * (j + 2) == shift - bits) by (nonlinear_arith)
                    requires
                        shift == 8 - bits * (j + 1),
                ;
                j = j + 1;
            }
            shift = shift - bits as i32;
        }
        proof {
            assert(j == n) by (nonlinear_arith)
                requires
                    shift < 0,
                    shift == 8 - bits * (j + 1),
                    bits * n == 8,
                    bits >= 1,
                    0 <= j <= n,
            ;
            lemma_rgb_written(old(self).buffer@, self.buffer@, bits, base, byte);
            if bits == 1 {
                assert((base + 8) % 8 == 0 && (base + 8) / 8 == base / 8 + 1);
            } else if bits == 2 {
                assert((base + 4) % 4 == 0 && (base + 4) / 4 == base / 4 + 1);
            } else if bits == 4 {
                assert((base + 2) % 2 == 0 && (base + 2) / 2 == base / 2 + 1);
            } else {
                assert((base + 1) % 1 == 0 && (base + 1) / 1 == base / 1 + 1);
            }
        }
    }

    fn max_bytes_to_encode(&self) -> usize {
        proof {
            lemma_fragments(self.bits_per_channel);
            lemma_capacity(rgb(self.bits_per_channel), self.buffer@.len());
        }
        let per_byte = (BITS_IN_BYTE / self.bits_per_channel) as usize;
        self.buffer.len() / per_byte - self.index / per_byte
    }

    fn bytes_to_encode(&self) -> Option<usize> {
        let name_length = self.file_name.as_str().as_bytes().len();
        match self.data.len().checked_add(name_length) {
            Some(sum) => sum.checked_add(4 + 4),
            None => None,
        }
    }

    fn file_name_bytes(&self) -> Vec<u8> {
        slice_to_vec(self.file_name.as_str().as_bytes())
    }

    fn data_bytes(&self) -> Vec<u8> {
        self.data.clone()
    }

    fn into_buffer(self) -> Vec<u8> {
        self.buffer
    }
}

} // verus!
