//! What holds of encoding and decoding together.

use vstd::prelude::*;
use vstd::utf8::encode_utf8;
use crate::config::Algorithm;
use crate::coder::decoder::header_decoder::parse_header;
use crate::coder::decoder::{announced, decoded_image, record_stream};
use crate::coder::encoder::header_encoder::header_bytes;
use crate::coder::encoder::{encoded_image, record_fits};
use crate::coder::header::{header_for, header_len};
use crate::coder::layout::{capacity, embed, extract, lemma_extract_embed, lemma_extract_prefix};
use crate::coder::record::{
    cut_field, lemma_parse_record, lemma_parse_truncated, lemma_record_fields, parse,
    record_bytes, record_len, Outcome,
};

verus! {

/// A carrier into which a record was written reads as that record, by the
/// same supported strategy, where the filename and the payload are both
/// shorter than 2^32 bytes.
pub proof fn lemma_read_written(
    algorithm: Algorithm,
    carrier: Seq<u8>,
    file_name: Seq<char>,
    payload: Seq<u8>,
)
    requires
        algorithm.supported(),
        encode_utf8(file_name).len() <= u32::MAX,
        payload.len() <= u32::MAX,
        record_len(file_name, payload) <= capacity(algorithm, carrier.len()),
    ensures
        parse(extract(algorithm, embed(algorithm, carrier, record_bytes(file_name, payload))))
            == (Outcome::Record { file_name, payload }),
{
    let record = record_bytes(file_name, payload);
    lemma_record_fields(file_name, payload);
    lemma_extract_embed(algorithm, carrier, record);
    lemma_parse_record(extract(algorithm, embed(algorithm, carrier, record)), file_name, payload);
}

/// A carrier with a record in it that is cut short, so that the channels
/// left carry only part of the record, reads as the failure of the field in
/// which the record ends.
pub proof fn lemma_read_truncated(
    algorithm: Algorithm,
    carrier: Seq<u8>,
    file_name: Seq<char>,
    payload: Seq<u8>,
    kept: int,
)
    requires
        algorithm.supported(),
        encode_utf8(file_name).len() <= u32::MAX,
        payload.len() <= u32::MAX,
        record_len(file_name, payload) <= capacity(algorithm, carrier.len()),
        0 <= kept <= carrier.len(),
        capacity(algorithm, kept as nat) < record_len(file_name, payload),
    ensures
        parse(
            extract(
                algorithm,
                embed(algorithm, carrier, record_bytes(file_name, payload)).subrange(0, kept),
            ),
        ) == Outcome::Missing(cut_field(file_name, capacity(algorithm, kept as nat) as int)),
{
    let record = record_bytes(file_name, payload);
    let written = embed(algorithm, carrier, record);
    let left = capacity(algorithm, kept as nat) as int;
    lemma_record_fields(file_name, payload);
    lemma_extract_prefix(algorithm, written, kept);
    lemma_extract_embed(algorithm, carrier, record);
    let whole = extract(algorithm, written);
    assert(whole.subrange(0, left) =~= whole.subrange(0, record.len() as int).subrange(0, left));
    lemma_parse_truncated(file_name, payload, left);
}

/// An image that starts with the header of a supported strategy announces
/// that strategy.
pub proof fn lemma_header_announced(algorithm: Algorithm, head: Seq<u8>, image: Seq<u8>)
    requires
        algorithm.supported(),
        head.len() == header_len(algorithm),
        image.len() >= header_len(algorithm),
        image.subrange(0, header_len(algorithm) as int) == embed(
            Algorithm::Alpha,
            head,
            header_bytes(header_for(algorithm)),
        ),
    ensures
        parse_header(image) == Ok::<_, Seq<char>>(header_for(algorithm)),
        announced(image) == Ok::<_, Seq<char>>(algorithm),
{
    let split = header_len(algorithm) as int;
    let written = embed(Algorithm::Alpha, head, header_bytes(header_for(algorithm)));
    let fields = extract(Algorithm::Alpha, image);
    assert(image[3] == image.subrange(0, split)[3]);
    assert(fields[0] == header_for(algorithm).mode);
    match algorithm {
        Algorithm::Alpha => {},
        Algorithm::Rgb(config) => {
            assert(image[7] == image.subrange(0, split)[7]);
            assert(fields[1] == config.bits_per_channel);
        },
    }
}

/// Decoding what was encoded gives the filename and the payload back.
///
/// This holds for every supported strategy and every image that is long
/// enough for the header and the record, where the filename and the payload
/// are both shorter than 2^32 bytes: a longer one has only the low 32 bits of
/// its length in the record.
pub proof fn lemma_decode_encoded(
    algorithm: Algorithm,
    image: Seq<u8>,
    file_name: Seq<char>,
    payload: Seq<u8>,
)
    requires
        algorithm.supported(),
        encode_utf8(file_name).len() <= u32::MAX,
        payload.len() <= u32::MAX,
        image.len() >= header_len(algorithm),
        record_fits(algorithm, image.len(), file_name, payload),
    ensures
        decoded_image(encoded_image(algorithm, image, file_name, payload)) == Ok::<_, Seq<char>>(
            Outcome::Record { file_name, payload },
        ),
{
    let split = header_len(algorithm) as int;
    let encoded = encoded_image(algorithm, image, file_name, payload);
    let record = record_bytes(file_name, payload);
    let rest = image.subrange(split, image.len() as int);
    lemma_record_fields(file_name, payload);
    assert(encoded.subrange(0, split) =~= embed(
        Algorithm::Alpha,
        image.subrange(0, split),
        header_bytes(header_for(algorithm)),
    ));
    lemma_header_announced(algorithm, image.subrange(0, split), encoded);
    assert(encoded.subrange(split, encoded.len() as int) =~= embed(algorithm, rest, record));
    lemma_extract_embed(algorithm, rest, record);
    lemma_parse_record(record_stream(algorithm, encoded), file_name, payload);
}

/// An encoded image that is cut short behind the header, so that the
/// channels left carry only part of the record, decodes to the failure of
/// the field in which the record ends, and to nothing else.
pub proof fn lemma_decode_truncated(
    algorithm: Algorithm,
    image: Seq<u8>,
    file_name: Seq<char>,
    payload: Seq<u8>,
    kept: int,
)
    requires
        algorithm.supported(),
        encode_utf8(file_name).len() <= u32::MAX,
        payload.len() <= u32::MAX,
        record_fits(algorithm, image.len(), file_name, payload),
        header_len(algorithm) <= kept <= image.len(),
        capacity(algorithm, (kept - header_len(algorithm)) as nat) < record_len(file_name, payload),
    ensures
        decoded_image(encoded_image(algorithm, image, file_name, payload).subrange(0, kept))
            == Ok::<_, Seq<char>>(
            Outcome::Missing(
                cut_field(
                    file_name,
                    capacity(algorithm, (kept - header_len(algorithm)) as nat) as int,
                ),
            ),
        ),
{
    let split = header_len(algorithm) as int;
    let encoded = encoded_image(algorithm, image, file_name, payload);
    let cut = encoded.subrange(0, kept);
    let record = record_bytes(file_name, payload);
    let rest = image.subrange(split, image.len() as int);
    let written = embed(algorithm, rest, record);
    let left = capacity(algorithm, (kept - split) as nat) as int;
    lemma_record_fields(file_name, payload);
    assert(cut.subrange(0, split) =~= embed(
        Algorithm::Alpha,
        image.subrange(0, split),
        header_bytes(header_for(algorithm)),
    ));
    lemma_header_announced(algorithm, image.subrange(0, split), cut);
    assert(cut.subrange(split, cut.len() as int) =~= written.subrange(0, kept - split));
    lemma_extract_prefix(algorithm, written, kept - split);
    lemma_extract_embed(algorithm, rest, record);
    let whole = extract(algorithm, written);
    assert(whole.subrange(0, left) =~= whole.subrange(0, record.len() as int).subrange(0, left));
    assert(record_stream(algorithm, cut) == record.subrange(0, left));
    lemma_parse_truncated(file_name, payload, left);
}

} // verus!
