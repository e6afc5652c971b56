use mythic_telegram::coder::decoder::header_decoder;
use mythic_telegram::coder::encoder::header_encoder;
use mythic_telegram::coder::error::{HeaderDecodeError, HeaderEncodeError};
use mythic_telegram::coder::header::{AlgHeader, AlphaHeader, Header, ALPHA_MODE, RGB_MODE};

#[test]
fn header_decoder_decode_alpha() {
    let mut buffer = vec![0; 4];
    let mut iter = buffer.iter_mut().skip(3).step_by(4);
    *iter.next().unwrap() = ALPHA_MODE;

    let decoded = header_decoder::decode(&buffer).unwrap();
    assert_eq!(decoded, Header::new_alpha());
}

#[test]
fn header_decoder_decode_rgb() {
    let bits_per_channel = 2;
    let mut buffer = vec![0; 8];
    let mut iter = buffer.iter_mut().skip(3).step_by(4);
    *iter.next().unwrap() = RGB_MODE;
    *iter.next().unwrap() = bits_per_channel;

    let decoded = header_decoder::decode(&buffer).unwrap();
    assert_eq!(decoded, Header::new_rgb(bits_per_channel));
}

#[test]
fn decode_error_missing_mode_data() {
    let buffer = Vec::new();
    let decoded = header_decoder::decode(&buffer);
    assert_eq!(
        decoded,
        Err(HeaderDecodeError(
            "Header decode error: Not enough data to decode mode.".to_string()
        ))
    );
}

#[test]
fn decode_error_missing_bits_per_channel_data() {
    let buffer = vec![0, 0, 0, RGB_MODE];
    let decoded = header_decoder::decode(&buffer);
    assert_eq!(
        decoded,
        Err(HeaderDecodeError(
            "Header decode error: Not enough data to decode bits per channel.".to_string()
        ))
    );
}

#[test]
fn decode_error_unknown_mode() {
    let unknown_mode = 4;
    let mut buffer = vec![0; 4];
    let mut iter = buffer.iter_mut().skip(3).step_by(4);
    *iter.next().unwrap() = unknown_mode;

    let decoded = header_decoder::decode(&buffer);
    assert_eq!(
        decoded,
        Err(HeaderDecodeError("Unknown mode in header.".to_string()))
    );
}

#[test]
fn header_encoder_encode_alpha() {
    let header = Header::new_alpha();
    let mut buffer = vec![0; 10];
    assert_eq!(Ok(()), header_encoder::encode(header, &mut buffer));
    assert_eq!(buffer, vec![0, 0, 0, ALPHA_MODE, 0, 0, 0, 0, 0, 0]);
}

#[test]
fn header_encoder_encode_rgb() {
    let bits_per_channel = 4;
    let header = Header::new_rgb(bits_per_channel);
    let mut buffer = vec![0; 10];
    assert_eq!(Ok(()), header_encoder::encode(header, &mut buffer));
    assert_eq!(
        buffer,
        vec![0, 0, 0, RGB_MODE, 0, 0, 0, bits_per_channel, 0, 0]
    );
}

#[test]
fn encode_error_not_enough_data_for_mode() {
    let header = Header::new_alpha();
    let mut buffer = vec![0; 1];
    let encoded = header_encoder::encode(header, &mut buffer);
    assert_eq!(
        encoded,
        Err(HeaderEncodeError(
            "Not enough to encode header mode.".to_string()
        ))
    );
}

#[test]
fn encode_error_not_enough_data_for_bits_per_channel() {
    let bits_per_channel = 1;
    let header = Header::new_rgb(bits_per_channel);
    let mut buffer = vec![0; 4];
    let encoded = header_encoder::encode(header, &mut buffer);
    assert_eq!(
        encoded,
        Err(HeaderEncodeError(
            "Not enough to encode header bits per channel.".to_string()
        ))
    );
}

#[test]
fn header_encode_failure_leaves_the_buffer_alone() {
    let mut buffer = vec![9; 7];
    let encoded = header_encoder::encode(Header::new_rgb(2), &mut buffer);
    assert!(encoded.is_err());
    assert_eq!(buffer, vec![9; 7]);

    let mut buffer = vec![9; 3];
    let encoded = header_encoder::encode(Header::new_alpha(), &mut buffer);
    assert!(encoded.is_err());
    assert_eq!(buffer, vec![9; 3]);
}

#[test]
fn header_encode_touches_only_the_alpha_channels() {
    let mut buffer = vec![9; 9];
    assert_eq!(Ok(()), header_encoder::encode(Header::new_rgb(8), &mut buffer));
    assert_eq!(buffer, vec![9, 9, 9, RGB_MODE, 9, 9, 9, 8, 9]);
}

#[test]
fn header_encode_at_the_exact_size() {
    let mut buffer = vec![0; 4];
    assert_eq!(Ok(()), header_encoder::encode(Header::new_alpha(), &mut buffer));
    assert_eq!(buffer, vec![0, 0, 0, ALPHA_MODE]);

    let mut buffer = vec![0; 8];
    assert_eq!(Ok(()), header_encoder::encode(Header::new_rgb(1), &mut buffer));
    assert_eq!(buffer, vec![0, 0, 0, RGB_MODE, 0, 0, 0, 1]);
}

#[test]
fn header_encode_writes_the_mode_it_is_given() {
    let header = Header::new(9, AlgHeader::Alpha(AlphaHeader {}));
    let mut buffer = vec![0; 4];
    assert_eq!(Ok(()), header_encoder::encode(header, &mut buffer));
    assert_eq!(buffer, vec![0, 0, 0, 9]);
}

#[test]
fn header_decode_reads_what_encode_wrote() {
    for header in [
        Header::new_alpha(),
        Header::new_rgb(1),
        Header::new_rgb(2),
        Header::new_rgb(4),
        Header::new_rgb(8),
    ] {
        let mut buffer = vec![0x5a; 12];
        assert_eq!(Ok(()), header_encoder::encode(header.clone(), &mut buffer));
        assert_eq!(header_decoder::decode(&buffer), Ok(header));
    }
}

#[test]
fn header_decode_keeps_a_width_that_is_not_supported() {
    let buffer = vec![0, 0, 0, RGB_MODE, 0, 0, 0, 3];
    assert_eq!(header_decoder::decode(&buffer), Ok(Header::new_rgb(3)));
}

#[test]
fn header_decode_mode_zero_is_unknown() {
    let buffer = vec![0; 8];
    assert_eq!(
        header_decoder::decode(&buffer),
        Err(HeaderDecodeError("Unknown mode in header.".to_string()))
    );
}

#[test]
fn header_decode_short_of_one_channel() {
    let buffer = vec![0, 0, 0];
    assert_eq!(
        header_decoder::decode(&buffer),
        Err(HeaderDecodeError(
            "Header decode error: Not enough data to decode mode.".to_string()
        ))
    );
    let buffer = vec![0, 0, 0, RGB_MODE, 0, 0, 0];
    assert_eq!(
        header_decoder::decode(&buffer),
        Err(HeaderDecodeError(
            "Header decode error: Not enough data to decode bits per channel.".to_string()
        ))
    );
}
