//! What the encoders of all strategies share: the record is checked against
//! the room that is left, then written field by field.

use vstd::prelude::*;
use crate::config::Algorithm;
use crate::coder::error::EncodeError;
use crate::coder::layout::{capacity, embed_at};
use crate::coder::record::{be_bytes, length_prefix, record_bytes, record_len};

verus! {

/// What an encoder stands at: its strategy, the carrier as it is now, the
/// number of logical bytes written so far, and the filename and payload that
/// are to be written.
pub struct EncodeState {
    pub algorithm: Algorithm,
    pub carrier: Seq<u8>,
    pub cursor: nat,
    pub file_name: Seq<char>,
    pub payload: Seq<u8>,
}

impl EncodeState {
    /// The logical bytes that the carrier can still take.
    pub open spec fn room(self) -> int {
        capacity(self.algorithm, self.carrier.len()) - self.cursor
    }

    /// Whether the record fits into the room that is left.
    pub open spec fn fits(self) -> bool {
        record_len(self.file_name, self.payload) <= self.room()
    }

    /// The carrier after the record has been written at the cursor.
    pub open spec fn encoded(self) -> Seq<u8> {
        embed_at(
            self.algorithm,
            self.carrier,
            self.cursor as int,
            record_bytes(self.file_name, self.payload),
        )
    }

    /// The state after `bytes` have been written at the cursor: nothing else
    /// changes.
    pub open spec fn after(self, bytes: Seq<u8>) -> EncodeState {
        EncodeState {
            algorithm: self.algorithm,
            carrier: embed_at(self.algorithm, self.carrier, self.cursor as int, bytes),
            cursor: self.cursor + bytes.len(),
            file_name: self.file_name,
            payload: self.payload,
        }
    }
}

/// Writing `first` and then `second` behind it is writing both at once.
pub proof fn lemma_embed_append(
    algorithm: Algorithm,
    carrier: Seq<u8>,
    start: int,
    first: Seq<u8>,
    second: Seq<u8>,
)
    ensures
        embed_at(algorithm, embed_at(algorithm, carrier, start, first), start + first.len(), second)
            == embed_at(algorithm, carrier, start, first + second),
{
    assert(embed_at(
        algorithm,
        embed_at(algorithm, carrier, start, first),
        start + first.len(),
        second,
    ) =~= embed_at(algorithm, carrier, start, first + second));
}

/// Two writes in a row are one write of both.
pub proof fn lemma_after_append(state: EncodeState, first: Seq<u8>, second: Seq<u8>)
    ensures
        state.after(first).after(second) == state.after(first + second),
{
    lemma_embed_append(state.algorithm, state.carrier, state.cursor as int, first, second);
}

/// Writing nothing changes nothing.
pub proof fn lemma_after_nothing(state: EncodeState)
    ensures
        state.after(seq![]) == state,
{
    assert(embed_at(state.algorithm, state.carrier, state.cursor as int, seq![]) =~= state.carrier);
}

/// An encoder of one strategy: a carrier, a cursor into it, and the filename
/// and payload that are to be written.
pub trait Encode: Sized {
    /// The invariant of the encoder.
    spec fn wf(&self) -> bool;

    /// What the encoder stands at.
    spec fn state(&self) -> EncodeState;

    /// Writes the record at the cursor, or nothing at all where it does not
    /// fit: the filename behind its length, then the payload behind its
    /// length. A length stands with its low 32 bits.
    fn encode(self) -> (result: Result<Vec<u8>, EncodeError>)
        requires
            self.wf(),
        ensures
            match result {
                Ok(buffer) => self.state().fits() && buffer@ == self.state().encoded(),
                Err(e) => !self.state().fits() && e.0@ == "Too much data to encode in the image."@,
            },
    {
        let mut encoder = self;
        match encoder.validate() {
            Err(e) => {
                return Err(e);
            },
            Ok(()) => {},
        }
        let ghost start = self.state();

        let file_name = encoder.file_name_bytes();
        let ghost name = file_name@;
        let ghost name_length = length_prefix(name.len());
        encoder.encode_length(low_bits(file_name.len()));
        encoder.encode_data(file_name);

        let data = encoder.data_bytes();
        let ghost payload = data@;
        let ghost data_length = length_prefix(payload.len());
        encoder.encode_length(low_bits(data.len()));
        encoder.encode_data(data);

        proof {
            lemma_after_append(start, name_length, name);
            lemma_after_append(start, name_length + name, data_length);
            lemma_after_append(start, name_length + name + data_length, payload);
        }
        Ok(encoder.into_buffer())
    }

    /// Whether the record fits into the room that is left.
    fn validate(&self) -> (result: Result<(), EncodeError>)
        requires
            self.wf(),
        ensures
            match result {
                Ok(_) => self.state().fits(),
                Err(e) => !self.state().fits() && e.0@ == "Too much data to encode in the image."@,
            },
    {
        let max = self.max_bytes_to_encode();
        let fitting = match self.bytes_to_encode() {
            Some(needed) => needed <= max,
            None => false,
        };
        if !fitting {
            return Err(EncodeError("Too much data to encode in the image.".to_owned()));
        }
        Ok(())
    }

    /// Writes the four bytes of `length`, most significant first.
    fn encode_length(&mut self, length: u32)
        requires
            old(self).wf(),
            old(self).state().room() >= 4,
        ensures
            final(self).wf(),
            final(self).state() == old(self).state().after(be_bytes(length)),
    {
        let ghost start = self.state();
        let bytes = [
            (length / 0x100_0000) as u8,
            ((length / 0x1_0000) % 0x100) as u8,
            ((length / 0x100) % 0x100) as u8,
            (length % 0x100) as u8,
        ];
        let mut i: usize = 0;
        proof {
            reveal(be_bytes);
            lemma_after_nothing(start);
            assert(be_bytes(length).take(0) =~= seq![]);
        }
        while i < 4
            invariant
                0 <= i <= 4,
                start.room() >= 4,
                bytes@ == be_bytes(length),
                self.wf(),
                self.state() == start.after(be_bytes(length).take(i as int)),
            decreases 4 - i,
        {
            self.encode_byte(bytes[i]);
            proof {
                lemma_after_append(start, be_bytes(length).take(i as int), seq![bytes@[i as int]]);
                assert(be_bytes(length).take(i as int) + seq![bytes@[i as int]] =~= be_bytes(
                    length,
                ).take(i + 1));
            }
            i += 1;
        }
        proof {
            assert(be_bytes(length).take(4) =~= be_bytes(length));
        }
    }

    /// Writes `data`, byte by byte.
    fn encode_data(&mut self, data: Vec<u8>)
        requires
            old(self).wf(),
            old(self).state().room() >= data@.len(),
        ensures
            final(self).wf(),
            final(self).state() == old(self).state().after(data@),
    {
        let ghost start = self.state();
        let mut i: usize = 0;
        proof {
            lemma_after_nothing(start);
            assert(data@.take(0) =~= seq![]);
        }
        while i < data.len()
            invariant
                0 <= i <= data@.len(),
                start.room() >= data@.len(),
                self.wf(),
                self.state() == start.after(data@.take(i as int)),
            decreases data@.len() - i,
        {
            self.encode_byte(data[i]);
            proof {
                lemma_after_append(start, data@.take(i as int), seq![data@[i as int]]);
                assert(data@.take(i as int) + seq![data@[i as int]] =~= data@.take(i + 1));
            }
            i += 1;
        }
        proof {
            assert(data@.take(data@.len() as int) =~= data@);
        }
    }

    /// Writes one logical byte at the cursor and moves the cursor on.
    fn encode_byte(&mut self, byte: u8)
        requires
            old(self).wf(),
            old(self).state().room() >= 1,
        ensures
            final(self).wf(),
            final(self).state() == old(self).state().after(seq![byte]),
    ;

    /// The logical bytes that the carrier still takes.
    fn max_bytes_to_encode(&self) -> (max: usize)
        requires
            self.wf(),
        ensures
            max == self.state().room(),
    ;

    /// The length of the record, where a `usize` holds it.
    fn bytes_to_encode(&self) -> (needed: Option<usize>)
        requires
            self.wf(),
        ensures
            match needed {
                Some(n) => n == record_len(self.state().file_name, self.state().payload),
                None => record_len(self.state().file_name, self.state().payload) > usize::MAX,
            },
    ;

    /// The bytes of the filename.
    fn file_name_bytes(&self) -> (bytes: Vec<u8>)
        requires
            self.wf(),
        ensures
            bytes@ == vstd::utf8::encode_utf8(self.state().file_name),
    ;

    /// The bytes of the payload.
    fn data_bytes(&self) -> (bytes: Vec<u8>)
        requires
            self.wf(),
        ensures
            bytes@ == self.state().payload,
    ;

    /// Gives the carrier back.
    fn into_buffer(self) -> (buffer: Vec<u8>)
        requires
            self.wf(),
        ensures
            buffer@ == self.state().carrier,
    ;
}

/// The low 32 bits of a length.
fn low_bits(len: usize) -> (low: u32)
    ensures
        be_bytes(low) == length_prefix(len as nat),
        length_prefix(len as nat).len() == 4,
{
    proof {
        reveal(be_bytes);
    }
    ((len as u64) % 0x1_0000_0000u64) as u32
}

} // verus!
