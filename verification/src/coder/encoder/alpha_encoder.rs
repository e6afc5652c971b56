//! The encoder that writes every logical byte whole into an alpha channel.

use vstd::prelude::*;
use vstd::slice::slice_to_vec;
use crate::config::Algorithm;
use crate::coder::encoder::encode::{Encode, EncodeState};
use crate::coder::layout::embed_at;

verus! {

pub struct AlphaEncoder {
    buffer: Vec<u8>,
    data: Vec<u8>,
    index: usize,
    file_name: String,
}

impl AlphaEncoder {
    /// An encoder at the start of `buffer`.
    pub fn new(buffer: Vec<u8>, data: Vec<u8>, file_name: String) -> (encoder: Self)
        ensures
            encoder.wf(),
            encoder.state() == (EncodeState {
                algorithm: Algorithm::Alpha,
                carrier: buffer@,
                cursor: 0,
                file_name: file_name@,
                payload: data@,
            }),
    {
        AlphaEncoder { buffer, data, index: 0, file_name }
    }
}

impl Encode for AlphaEncoder {
    closed spec fn wf(&self) -> bool {
        self.index <= self.buffer@.len() / 4
    }

    closed spec fn state(&self) -> EncodeState {
        EncodeState {
            algorithm: Algorithm::Alpha,
            carrier: self.buffer@,
            cursor: self.index as nat,
            file_name: self.file_name@,
            payload: self.data@,
        }
    }

    fn encode_byte(&mut self, byte: u8) {
        assert(self.index < self.buffer.len() / 4);
        let at = 4 * self.index + 3;
        self.buffer.set(at, byte);
        self.index = self.index + 1;
        proof {
            assert(self.buffer@ =~= embed_at(
                Algorithm::Alpha,
                old(self).buffer@,
                old(self).index as int,
                seq![byte],
            ));
        }
    }

    fn max_bytes_to_encode(&self) -> usize {
        self.buffer.len() / 4 - self.index
    }

    fn bytes_to_encode(&self) -> Option<usize> {
        let name_length = self.file_name.as_str().as_bytes().len();
        match self.data.len().checked_add(name_length) {
            Some(sum) => sum.checked_add(4 + 4),
            None => None,
        }
    }

    fn file_name_bytes(&self) -> Vec<u8> {
        slice_to_vec(self.file_name.as_str().as_bytes())
    }

    fn data_bytes(&self) -> Vec<u8> {
        self.data.clone()
    }

    fn into_buffer(self) -> Vec<u8> {
        self.buffer
    }
}

} // verus!
