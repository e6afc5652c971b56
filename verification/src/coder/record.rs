//! The record that rides on a strategy: the filename and the payload, each
//! behind its length as four big-endian bytes.

use vstd::prelude::*;
use vstd::utf8::{decode_utf8, encode_utf8, valid_utf8, encode_utf8_decode_utf8, encode_utf8_valid_utf8};
use crate::coder::error::CoderError;

verus! {

/// The four bytes of `value`, most significant first.
#[verifier::opaque]
pub open spec fn be_bytes(value: u32) -> Seq<u8> {
    seq![
        (value / 0x100_0000) as u8,
        ((value / 0x1_0000) % 0x100) as u8,
        ((value / 0x100) % 0x100) as u8,
        (value % 0x100) as u8,
    ]
}

/// The number that the first four bytes spell, most significant first.
#[verifier::opaque]
pub open spec fn be_value(bytes: Seq<u8>) -> nat {
    (bytes[0] * 0x100_0000 + bytes[1] * 0x1_0000 + bytes[2] * 0x100 + bytes[3]) as nat
}

/// A length as it stands in the record: its low 32 bits.
pub open spec fn length_prefix(len: nat) -> Seq<u8> {
    be_bytes((len % 0x1_0000_0000) as u32)
}

/// The record of a filename and a payload.
pub open spec fn record_bytes(file_name: Seq<char>, payload: Seq<u8>) -> Seq<u8> {
    length_prefix(encode_utf8(file_name).len()) + encode_utf8(file_name) + length_prefix(
        payload.len(),
    ) + payload
}

/// The length of that record.
pub open spec fn record_len(file_name: Seq<char>, payload: Seq<u8>) -> nat {
    4 + encode_utf8(file_name).len() + 4 + payload.len()
}

/// The fields of a record, in the order in which they are read.
#[derive(Debug, Clone, Copy, PartialEq, Eq, Structural)]
pub enum Field {
    FilenameLength,
    Filename,
    DataLength,
    Data,
}

impl Field {
    /// How messages name the field.
    pub open spec fn label(self) -> Seq<char> {
        match self {
            Field::FilenameLength => "filename length"@,
            Field::Filename => "filename"@,
            Field::DataLength => "data length"@,
            Field::Data => "data"@,
        }
    }

    pub fn name(&self) -> (name: &'static str)
        ensures
            name@ == self.label(),
    {
        match self {
            Field::FilenameLength => "filename length",
            Field::Filename => "filename",
            Field::DataLength => "data length",
            Field::Data => "data",
        }
    }
}

/// What reading a record from a stream of logical bytes comes to.
pub enum Outcome {
    /// The stream ends before the field does.
    Missing(Field),
    /// The bytes of the filename are not UTF-8.
    BadText,
    /// The stream starts with a whole record.
    Record { file_name: Seq<char>, payload: Seq<u8> },
}

/// Reads the fields in order and stops at the first that fails.
pub open spec fn parse(stream: Seq<u8>) -> Outcome {
    if stream.len() < 4 {
        Outcome::Missing(Field::FilenameLength)
    } else {
        let n = be_value(stream.subrange(0, 4)) as int;
        if stream.len() - 4 < n {
            Outcome::Missing(Field::Filename)
        } else if !valid_utf8(stream.subrange(4, 4 + n)) {
            Outcome::BadText
        } else if stream.len() - 4 - n < 4 {
            Outcome::Missing(Field::DataLength)
        } else {
            let m = be_value(stream.subrange(4 + n, 8 + n)) as int;
            if stream.len() - 8 - n < m {
                Outcome::Missing(Field::Data)
            } else {
                Outcome::Record {
                    file_name: decode_utf8(stream.subrange(4, 4 + n)),
                    payload: stream.subrange(8 + n, 8 + n + m),
                }
            }
        }
    }
}

/// The field in which a record ends that is cut after `kept` logical bytes.
pub open spec fn cut_field(file_name: Seq<char>, kept: int) -> Field {
    if kept < 4 {
        Field::FilenameLength
    } else if kept < 4 + encode_utf8(file_name).len() {
        Field::Filename
    } else if kept < 8 + encode_utf8(file_name).len() {
        Field::DataLength
    } else {
        Field::Data
    }
}

/// The message for a field that the stream ends in.
pub open spec fn missing_message(field: Field) -> Seq<char> {
    "Not enough data to decode "@ + field.label()
}

/// Whether a decoder's result is the given outcome: the record itself, the
/// message of the missing field, or a text error.
pub open spec fn reports(result: Result<(String, Vec<u8>), CoderError>, outcome: Outcome) -> bool {
    match outcome {
        Outcome::Missing(field) => match result {
            Err(CoderError::Decode(e)) => e.0@ == missing_message(field),
            _ => false,
        },
        Outcome::BadText => result matches Err(CoderError::TextDecode(_)),
        Outcome::Record { file_name, payload } => match result {
            Ok((name, data)) => name@ == file_name && data@ == payload,
            _ => false,
        },
    }
}

/// Big-endian bytes spell the number they were made from.
pub proof fn lemma_be_round_trip(value: u32)
    ensures
        be_bytes(value).len() == 4,
        be_value(be_bytes(value)) == value,
{
    reveal(be_bytes);
    reveal(be_value);
}

/// A stream that starts with the record of a filename and a payload, both
/// shorter than 2^32 bytes, reads as that filename and payload.
pub proof fn lemma_parse_record(stream: Seq<u8>, file_name: Seq<char>, payload: Seq<u8>)
    requires
        encode_utf8(file_name).len() <= u32::MAX,
        payload.len() <= u32::MAX,
        record_len(file_name, payload) <= stream.len(),
        stream.subrange(0, record_len(file_name, payload) as int) == record_bytes(file_name, payload),
    ensures
        parse(stream) == (Outcome::Record { file_name, payload }),
{
    let name = encode_utf8(file_name);
    let n = name.len() as int;
    let m = payload.len() as int;
    let record = record_bytes(file_name, payload);
    let head = stream.subrange(0, 8 + n + m);
    assert(head == record);
    assert(record.len() == 8 + n + m) by {
        lemma_record_fields(file_name, payload);
    }
    assert(stream.subrange(0, 4) == length_prefix(n as nat)) by {
        lemma_record_fields(file_name, payload);
        assert(stream.subrange(0, 4) =~= head.subrange(0, 4));
    }
    assert(stream.subrange(4, 4 + n) == name) by {
        lemma_record_fields(file_name, payload);
        assert(stream.subrange(4, 4 + n) =~= head.subrange(4, 4 + n));
    }
    assert(stream.subrange(4 + n, 8 + n) == length_prefix(m as nat)) by {
        lemma_record_fields(file_name, payload);
        assert(stream.subrange(4 + n, 8 + n) =~= head.subrange(4 + n, 8 + n));
    }
    assert(stream.subrange(8 + n, 8 + n + m) == payload) by {
        lemma_record_fields(file_name, payload);
        assert(stream.subrange(8 + n, 8 + n + m) =~= head.subrange(8 + n, 8 + n + m));
    }
    assert(be_value(length_prefix(n as nat)) == n) by {
        lemma_be_round_trip(n as u32);
    }
    assert(be_value(length_prefix(m as nat)) == m) by {
        lemma_be_round_trip(m as u32);
    }
    assert(valid_utf8(name)) by {
        encode_utf8_valid_utf8(file_name);
    }
    assert(decode_utf8(name) == file_name) by {
        encode_utf8_decode_utf8(file_name);
    }
}

/// The fields of a record, by their places in it.
pub proof fn lemma_record_fields(file_name: Seq<char>, payload: Seq<u8>)
    ensures
        record_bytes(file_name, payload).len() == record_len(file_name, payload),
        record_bytes(file_name, payload).subrange(0, 4) == length_prefix(
            encode_utf8(file_name).len(),
        ),
        record_bytes(file_name, payload).subrange(4, 4 + encode_utf8(file_name).len() as int)
            == encode_utf8(file_name),
        record_bytes(file_name, payload).subrange(
            4 + encode_utf8(file_name).len() as int,
            8 + encode_utf8(file_name).len() as int,
        ) == length_prefix(payload.len()),
        record_bytes(file_name, payload).subrange(
            8 + encode_utf8(file_name).len() as int,
            8 + encode_utf8(file_name).len() as int + payload.len() as int,
        ) == payload,
{
    let name = encode_utf8(file_name);
    let n = name.len() as int;
    let m = payload.len() as int;
    let record = record_bytes(file_name, payload);
    lemma_be_round_trip((name.len() % 0x1_0000_0000) as u32);
    lemma_be_round_trip((payload.len() % 0x1_0000_0000) as u32);
    assert(record.subrange(0, 4) =~= length_prefix(name.len()));
    assert(record.subrange(4, 4 + n) =~= name);
    assert(record.subrange(4 + n, 8 + n) =~= length_prefix(payload.len()));
    assert(record.subrange(8 + n, 8 + n + m) =~= payload);
}

/// A stream that is a record cut short reads as the failure of the field in
/// which the cut lies: nothing else comes of it.
pub proof fn lemma_parse_truncated(file_name: Seq<char>, payload: Seq<u8>, kept: int)
    requires
        encode_utf8(file_name).len() <= u32::MAX,
        payload.len() <= u32::MAX,
        0 <= kept < record_len(file_name, payload),
    ensures
        parse(record_bytes(file_name, payload).subrange(0, kept)) == Outcome::Missing(
            cut_field(file_name, kept),
        ),
{
    let name = encode_utf8(file_name);
    let n = name.len() as int;
    let m = payload.len() as int;
    let record = record_bytes(file_name, payload);
    let stream = record.subrange(0, kept);
    assert(record.len() == 8 + n + m) by {
        lemma_record_fields(file_name, payload);
    }
    assert(stream.len() == kept);
    if kept >= 4 {
        assert(stream.subrange(0, 4) == length_prefix(n as nat)) by {
            lemma_record_fields(file_name, payload);
            assert(stream.subrange(0, 4) =~= record.subrange(0, 4));
        }
        assert(be_value(length_prefix(n as nat)) == n) by {
            lemma_be_round_trip(n as u32);
        }
        if kept >= 4 + n {
            assert(stream.subrange(4, 4 + n) == name) by {
                lemma_record_fields(file_name, payload);
                assert(stream.subrange(4, 4 + n) =~= record.subrange(4, 4 + n));
            }
            assert(valid_utf8(name)) by {
                encode_utf8_valid_utf8(file_name);
            }
            if kept >= 8 + n {
                assert(stream.subrange(4 + n, 8 + n) == length_prefix(m as nat)) by {
                    lemma_record_fields(file_name, payload);
                    assert(stream.subrange(4 + n, 8 + n) =~= record.subrange(4 + n, 8 + n));
                }
                assert(be_value(length_prefix(m as nat)) == m) by {
                    lemma_be_round_trip(m as u32);
                }
            }
        }
    }
}

} // verus!
